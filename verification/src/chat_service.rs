//! Sending a message: what the conversation looks like before, during and
//! after the assistant's reply streams in.
use vstd::prelude::*;

use crate::chat_completions::comp_chunks_collector::{
    collected_views, content_text, extract_content_from_chunks, CollectedChunk,
};
use crate::messages::omessage_views;
use crate::openai::{OMessage, OMessageContentView, OMessageView};
use crate::shared_state::Message;
use crate::text::{concat, str_eq, str_trim, trim_ws};

verus! {

/// A request to send the given content as a user message.
#[derive(Debug)]
pub struct SendMessageRequest {
    pub content: String,
}

impl Clone for SendMessageRequest {
    fn clone(&self) -> (res: Self)
        ensures
            res == *self,
    {
        SendMessageRequest { content: self.content.clone() }
    }
}

/// The word `user`.
pub open spec fn user_role() -> Seq<char> {
    seq!['u', 's', 'e', 'r']
}

/// The word `assistant`.
pub open spec fn assistant_role() -> Seq<char> {
    seq!['a', 's', 's', 'i', 's', 't', 'a', 'n', 't']
}

/// A role that takes part in the completion request.
pub open spec fn is_chat_role(role: Seq<char>) -> bool {
    role == user_role() || role == assistant_role()
}

/// The request message of a message on screen: same role, its content as a
/// plain string.
pub open spec fn request_message(m: Message) -> OMessageView {
    OMessageView {
        role: m.role@,
        content: OMessageContentView::ContentString(m.content@),
        tool_calls: None,
        tool_call_id: Seq::<char>::empty(),
    }
}

/// The messages that a completion request carries: those of the user and of
/// the assistant, in order.
pub open spec fn completion_history_of(messages: Seq<Message>) -> Seq<OMessageView>
    decreases messages.len(),
{
    if messages.len() == 0 {
        seq![]
    } else {
        let rest = completion_history_of(messages.drop_last());
        if is_chat_role(messages.last().role@) {
            rest.push(request_message(messages.last()))
        } else {
            rest
        }
    }
}

/// A message is sent only when it holds more than whitespace.
pub fn should_send(content: &str) -> (res: bool)
    ensures
        res == (trim_ws(content@).len() > 0),
{
    !str_trim(content).is_empty()
}

/// Appends the user's message and an empty assistant message that the reply
/// will fill; returns the position of the assistant message.
pub fn begin_exchange(messages: &mut Vec<Message>, content: String) -> (assistant_index: usize)
    requires
        old(messages)@.len() + 2 <= usize::MAX,
    ensures
        assistant_index == old(messages)@.len() + 1,
        final(messages)@.len() == old(messages)@.len() + 2,
        final(messages)@.take(old(messages)@.len() as int) == old(messages)@,
        final(messages)@[old(messages)@.len() as int].role@ == user_role(),
        final(messages)@[old(messages)@.len() as int].content == content,
        final(messages)@[assistant_index as int].role@ == assistant_role(),
        final(messages)@[assistant_index as int].content@ == Seq::<char>::empty(),
{
    proof {
        reveal_strlit("user");
        reveal_strlit("assistant");
        assert("user"@ =~= user_role());
        assert("assistant"@ =~= assistant_role());
    }
    messages.push(Message { role: "user".to_owned(), content });
    let assistant_index = messages.len();
    messages.push(Message { role: "assistant".to_owned(), content: String::new() });
    proof {
        assert(messages@.take(old(messages)@.len() as int) =~= old(messages)@);
    }
    assistant_index
}

/// The messages of a completion request: each user and assistant message
/// with its role and content, in order.
pub fn completion_history(messages: &Vec<Message>) -> (res: Vec<OMessage>)
    ensures
        omessage_views(res@) == completion_history_of(messages@),
{
    proof {
        reveal_strlit("user");
        reveal_strlit("assistant");
        assert("user"@ =~= user_role());
        assert("assistant"@ =~= assistant_role());
    }
    let mut out: Vec<OMessage> = Vec::new();
    let mut i: usize = 0;
    proof {
        assert(messages@.take(0) =~= Seq::<Message>::empty());
        assert(omessage_views(out@) =~= Seq::<OMessageView>::empty());
    }
    while i < messages.len()
        invariant
            i <= messages@.len(),
            omessage_views(out@) == completion_history_of(messages@.take(i as int)),
        decreases messages@.len() - i,
    {
        let m = &messages[i];
        let ghost before = omessage_views(out@);
        proof {
            reveal_strlit("user");
            reveal_strlit("assistant");
            assert("user"@ =~= user_role());
            assert("assistant"@ =~= assistant_role());
        }
        if str_eq(m.role.as_str(), "user") || str_eq(m.role.as_str(), "assistant") {
            out.push(OMessage::new(m.role.clone(), m.content.clone()));
            proof {
                assert(omessage_views(out@) =~= before.push(request_message(*m)));
            }
        }
        proof {
            assert(messages@.take(i + 1).drop_last() =~= messages@.take(i as int));
        }
        i = i + 1;
    }
    proof {
        assert(messages@.take(messages@.len() as int) =~= messages@);
    }
    out
}

/// Replaces the content of the message at `index`, keeping its role; a
/// position past the end leaves the messages as they are.
pub fn set_message_content(messages: &mut Vec<Message>, index: usize, content: String)
    ensures
        index < old(messages)@.len() ==> final(messages)@ == old(messages)@.update(
            index as int,
            Message { content, role: old(messages)@[index as int].role },
        ),
        index >= old(messages)@.len() ==> final(messages)@ == old(messages)@,
{
    if index < messages.len() {
        let role = messages[index].role.clone();
        messages.set(index, Message { content, role });
    }
}

/// Shows the reply received so far: the assistant message at `index` holds
/// the content of all chunks received, joined.
pub fn show_reply_progress(messages: &mut Vec<Message>, index: usize, received: &Vec<CollectedChunk>)
    ensures
        index < old(messages)@.len() ==> {
            &&& final(messages)@.len() == old(messages)@.len()
            &&& final(messages)@[index as int].content@ == content_text(collected_views(received@))
            &&& final(messages)@[index as int].role == old(messages)@[index as int].role
            &&& forall|j: int|
                0 <= j < old(messages)@.len() && j != index ==> final(messages)@[j] == old(
                    messages,
                )@[j]
        },
        index >= old(messages)@.len() ==> final(messages)@ == old(messages)@,
{
    let content = extract_content_from_chunks(received);
    set_message_content(messages, index, content);
}

/// The text that replaces the reply when the stream cannot start.
pub fn stream_error_content(error: &str) -> (res: String)
    ensures
        res@ == "Error: "@ + error@,
{
    concat("Error: ", error)
}

/// The messages of a completion request right after an exchange begins are
/// those of before, then the user's message, then the empty assistant
/// message.
pub proof fn law_history_after_begin(before: Seq<Message>, after: Seq<Message>)
    requires
        after.len() == before.len() + 2,
        after.take(before.len() as int) == before,
        after[before.len() as int].role@ == user_role(),
        after[before.len() + 1int].role@ == assistant_role(),
    ensures
        completion_history_of(after) == completion_history_of(before).push(
            request_message(after[before.len() as int]),
        ).push(request_message(after[before.len() + 1int])),
{
    let a1 = after.drop_last();
    assert(a1.drop_last() =~= before);
    assert(a1.last() == after[before.len() as int]);
    assert(after.last() == after[before.len() + 1int]);
    assert(completion_history_of(a1) == completion_history_of(before).push(
        request_message(after[before.len() as int]),
    ));
}

/// The completion request carries the user and assistant messages of the
/// conversation and no others, in order, each with its own role and its own
/// content as a plain string, with no tool calls and no tool call id.
pub proof fn law_history_keeps_messages(messages: Seq<Message>)
    ensures
        ({
            let h = completion_history_of(messages);
            let c = messages.filter(|m: Message| m.role@ == user_role() || m.role@ == assistant_role());
            &&& h.len() == c.len()
            &&& forall|i: int|
                0 <= i < h.len() ==> {
                    &&& (#[trigger] h[i]).role == c[i].role@
                    &&& h[i].content == OMessageContentView::ContentString(c[i].content@)
                    &&& h[i].tool_calls is None
                    &&& h[i].tool_call_id.len() == 0
                }
        }),
    decreases messages.len(),
{
    if messages.len() > 0 {
        let pred = |m: Message| m.role@ == user_role() || m.role@ == assistant_role();
        let p = messages.drop_last();
        law_history_keeps_messages(p);
        reveal_with_fuel(Seq::<Message>::filter, 1);
        assert(messages.filter(pred) == if pred(messages.last()) {
            p.filter(pred).push(messages.last())
        } else {
            p.filter(pred)
        });
    }
}

} // verus!
