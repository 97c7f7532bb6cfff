//! The chat messages that the client keeps: text or typed content items,
//! tool calls, and the conversion of mixed message lists.
use vstd::prelude::*;

use crate::image_utils::{image_bytes_from_b64string, image_prefix};
use crate::openai::{omessage_from_internal, omessage_to_internal, OMessage, OMessageView};
use crate::text::{concat, str_eq, str_starts_with};

verus! {

/// The word `text`, the type of a text item.
pub open spec fn text_type() -> Seq<char> {
    seq!['t', 'e', 'x', 't']
}

/// A content item type is `text` or starts with `image/`.
pub open spec fn is_valid_item_type(m_type: Seq<char>) -> bool {
    m_type == text_type() || image_prefix().is_prefix_of(m_type)
}

/// The item that `ContentArrayItem::new` builds, as (type, content), or its
/// error message.
pub open spec fn new_item(m_type: Seq<char>, m_content: Seq<char>) -> Result<
    (Seq<char>, Seq<char>),
    Seq<char>,
> {
    if is_valid_item_type(m_type) {
        Ok((m_type, m_content))
    } else {
        Err("ContentArrayItem::new() received invalid type: "@ + m_type)
    }
}

/// A result seen through the views of its values.
pub open spec fn result_view<T: View>(r: Result<T, String>) -> Result<T::V, Seq<char>> {
    match r {
        Ok(t) => Ok(t@),
        Err(e) => Err(e@),
    }
}

/// Collects results in order: all values when every one is `Ok`, else the
/// error of the first that is not.
pub open spec fn collect_results<A>(rs: Seq<Result<A, Seq<char>>>) -> Result<Seq<A>, Seq<char>>
    decreases rs.len(),
{
    if rs.len() == 0 {
        Ok(seq![])
    } else {
        match collect_results(rs.drop_last()) {
            Err(e) => Err(e),
            Ok(v) => match rs.last() {
                Ok(a) => Ok(v.push(a)),
                Err(e) => Err(e),
            },
        }
    }
}

/// Once a prefix of the results holds an error, the whole collection fails
/// with that error.
pub proof fn lemma_collect_results_err<A>(rs: Seq<Result<A, Seq<char>>>, i: int)
    requires
        0 <= i <= rs.len(),
        collect_results(rs.take(i)) is Err,
    ensures
        collect_results(rs) == collect_results(rs.take(i)),
    decreases rs.len() - i,
{
    if i == rs.len() {
        assert(rs.take(i) =~= rs);
    } else {
        assert(rs.take(i + 1).drop_last() =~= rs.take(i));
        lemma_collect_results_err(rs, i + 1);
    }
}

/// Extending a collection whose results are all `Ok` by one more result.
pub proof fn lemma_collect_results_step<A>(rs: Seq<Result<A, Seq<char>>>, i: int)
    requires
        0 <= i < rs.len(),
    ensures
        collect_results(rs.take(i + 1)) == match collect_results(rs.take(i)) {
            Err(e) => Err(e),
            Ok(v) => match rs[i] {
                Ok(a) => Ok(v.push(a)),
                Err(e) => Err(e),
            },
        },
{
    assert(rs.take(i + 1).drop_last() =~= rs.take(i));
}

/// One item of an array content: its media type (`text` or `image/...`) and
/// its content (the text, or the base64 image data).
#[derive(Debug)]
pub struct ContentArrayItem {
    pub m_type: String,
    pub m_content: String,
}

impl View for ContentArrayItem {
    type V = (Seq<char>, Seq<char>);

    open spec fn view(&self) -> (Seq<char>, Seq<char>) {
        (self.m_type@, self.m_content@)
    }
}

impl Clone for ContentArrayItem {
    fn clone(&self) -> (res: Self)
        ensures
            res == *self,
    {
        ContentArrayItem { m_type: self.m_type.clone(), m_content: self.m_content.clone() }
    }
}

impl ContentArrayItem {
    /// An item of the given type and content; the type must be `text` or
    /// start with `image/`.
    pub fn new(m_type: String, m_content: String) -> (res: Result<Self, String>)
        ensures
            result_view(res) == new_item(m_type@, m_content@),
            res matches Ok(item) ==> item.m_type == m_type && item.m_content == m_content,
    {
        let is_text = str_eq(m_type.as_str(), "text");
        let is_image = str_starts_with(m_type.as_str(), "image/");
        proof {
            reveal_strlit("text");
            reveal_strlit("image/");
            assert("text"@ =~= text_type());
            assert("image/"@ =~= image_prefix());
        }
        if !is_text && !is_image {
            return Err(concat("ContentArrayItem::new() received invalid type: ", m_type.as_str()));
        }
        if is_image {
            // The decoded image is not kept: an item is accepted by its type alone.
            let _ = image_bytes_from_b64string(m_content.as_str());
        }
        Ok(ContentArrayItem { m_type, m_content })
    }
}

/// The content of a message: a plain string or an array of typed items.
#[derive(Debug)]
pub enum MessageContent {
    ContentString(String),
    ContentArray(Vec<ContentArrayItem>),
}

/// The view of a message's content.
pub enum MessageContentView {
    ContentString(Seq<char>),
    ContentArray(Seq<(Seq<char>, Seq<char>)>),
}

/// The views of a sequence of items.
pub open spec fn item_views(v: Seq<ContentArrayItem>) -> Seq<(Seq<char>, Seq<char>)> {
    v.map_values(|i: ContentArrayItem| i@)
}

impl Clone for MessageContent {
    fn clone(&self) -> (res: Self)
        ensures
            res@ == self@,
    {
        match self {
            MessageContent::ContentString(s) => MessageContent::ContentString(s.clone()),
            MessageContent::ContentArray(v) => {
                let c = v.clone();
                proof {
                    assert(c@ =~= v@);
                }
                MessageContent::ContentArray(c)
            },
        }
    }
}

impl View for MessageContent {
    type V = MessageContentView;

    open spec fn view(&self) -> MessageContentView {
        match self {
            MessageContent::ContentString(s) => MessageContentView::ContentString(s@),
            MessageContent::ContentArray(v) => MessageContentView::ContentArray(item_views(v@)),
        }
    }
}

/// The function of a tool call: its name and its arguments as JSON text.
#[derive(Debug)]
pub struct ToolFunction {
    pub arguments: String,
    pub name: String,
}

impl Clone for ToolFunction {
    fn clone(&self) -> (res: Self)
        ensures
            res == *self,
    {
        ToolFunction { arguments: self.arguments.clone(), name: self.name.clone() }
    }
}

/// A tool call that an assistant message carries.
#[derive(Debug)]
pub struct ToolCall {
    pub id: String,
    pub function: ToolFunction,
    pub tool_type: String,
}

impl Clone for ToolCall {
    fn clone(&self) -> (res: Self)
        ensures
            res == *self,
    {
        ToolCall {
            id: self.id.clone(),
            function: self.function.clone(),
            tool_type: self.tool_type.clone(),
        }
    }
}

/// A chat message as the client keeps it.
#[derive(Debug)]
pub struct Message {
    pub role: String,
    pub content: MessageContent,
    pub tool_calls: Option<Vec<ToolCall>>,
    pub tool_call_id: String,
}

/// The view of a message.
pub struct MessageView {
    pub role: Seq<char>,
    pub content: MessageContentView,
    pub tool_calls: Option<Seq<ToolCall>>,
    pub tool_call_id: Seq<char>,
}

/// The view of an optional list of tool calls.
pub open spec fn tool_calls_view(t: Option<Vec<ToolCall>>) -> Option<Seq<ToolCall>> {
    match t {
        Some(v) => Some(v@),
        None => None,
    }
}

impl Clone for Message {
    fn clone(&self) -> (res: Self)
        ensures
            res@ == self@,
    {
        let tool_calls = match &self.tool_calls {
            Some(v) => {
                let c = v.clone();
                proof {
                    assert(c@ =~= v@);
                }
                Some(c)
            },
            None => None,
        };
        Message {
            role: self.role.clone(),
            content: self.content.clone(),
            tool_calls,
            tool_call_id: self.tool_call_id.clone(),
        }
    }
}

impl View for Message {
    type V = MessageView;

    open spec fn view(&self) -> MessageView {
        MessageView {
            role: self.role@,
            content: self.content@,
            tool_calls: tool_calls_view(self.tool_calls),
            tool_call_id: self.tool_call_id@,
        }
    }
}

/// True when the option holds no value.
pub fn is_none<T>(opt: &Option<T>) -> (res: bool)
    ensures
        res == opt.is_none(),
{
    opt.is_none()
}

/// True when the string holds no characters.
pub fn is_empty_string(something: &String) -> (res: bool)
    ensures
        res == (something@.len() == 0),
{
    something.as_str().is_empty()
}

/// A message in either of the two shapes that a saved conversation may hold.
#[derive(Debug)]
pub enum AnyMessage {
    Message(Message),
    OMessage(OMessage),
}

impl Clone for AnyMessage {
    fn clone(&self) -> (res: Self)
        ensures
            match (self, res) {
                (AnyMessage::Message(a), AnyMessage::Message(b)) => b@ == a@,
                (AnyMessage::OMessage(a), AnyMessage::OMessage(b)) => b@ == a@,
                _ => false,
            },
    {
        match self {
            AnyMessage::Message(m) => AnyMessage::Message(m.clone()),
            AnyMessage::OMessage(m) => AnyMessage::OMessage(m.clone()),
        }
    }
}

/// The internal form of a message of either shape.
pub open spec fn any_message_to_internal(m: AnyMessage) -> Result<MessageView, Seq<char>> {
    match m {
        AnyMessage::Message(m) => Ok(m@),
        AnyMessage::OMessage(m) => omessage_to_internal(m@),
    }
}

/// The views of a sequence of messages.
pub open spec fn message_views(v: Seq<Message>) -> Seq<MessageView> {
    v.map_values(|m: Message| m@)
}

/// The views of a sequence of OpenAI messages.
pub open spec fn omessage_views(v: Seq<OMessage>) -> Seq<OMessageView> {
    v.map_values(|m: OMessage| m@)
}

/// A result of a list seen through the views of its values.
pub open spec fn list_result_view<T: View>(r: Result<Vec<T>, String>) -> Result<Seq<T::V>, Seq<char>> {
    match r {
        Ok(v) => Ok(v@.map_values(|t: T| t@)),
        Err(e) => Err(e@),
    }
}

/// Converts messages to the OpenAI shape, failing with the error of the
/// first message that cannot be converted.
pub fn messages2openai(msgs: Vec<Message>) -> (res: Result<Vec<OMessage>, String>)
    ensures
        list_result_view(res) == collect_results(
            msgs@.map_values(|m: Message| omessage_from_internal(m@)),
        ),
{
    let ghost rs = msgs@.map_values(|m: Message| omessage_from_internal(m@));
    let mut out: Vec<OMessage> = Vec::new();
    proof {
        assert(rs.take(0) =~= Seq::<Result<OMessageView, Seq<char>>>::empty());
        assert(omessage_views(out@) =~= Seq::<OMessageView>::empty());
    }
    for m in it: msgs.into_iter()
        invariant
            it.seq() == msgs@,
            rs == msgs@.map_values(|m: Message| omessage_from_internal(m@)),
            collect_results(rs.take(it.index() as int)) == Ok::<_, Seq<char>>(omessage_views(out@)),
    {
        let ghost i = it.index() as int;
        proof {
            lemma_collect_results_step(rs, i);
        }
        match OMessage::from_internal(m) {
            Ok(om) => {
                let ghost before = omessage_views(out@);
                out.push(om);
                proof {
                    assert(omessage_views(out@) =~= before.push(om@));
                }
            },
            Err(e) => {
                proof {
                    lemma_collect_results_err(rs, i + 1);
                }
                return Err(e);
            },
        }
    }
    proof {
        assert(rs.take(msgs@.len() as int) =~= rs);
    }
    Ok(out)
}

/// Converts messages of either shape to the internal shape, failing with the
/// error of the first message that cannot be converted.
pub fn any_messages2internal(msgs: Vec<AnyMessage>) -> (res: Result<Vec<Message>, String>)
    ensures
        list_result_view(res) == collect_results(
            msgs@.map_values(|m: AnyMessage| any_message_to_internal(m)),
        ),
{
    let ghost rs = msgs@.map_values(|m: AnyMessage| any_message_to_internal(m));
    let mut out: Vec<Message> = Vec::new();
    proof {
        assert(rs.take(0) =~= Seq::<Result<MessageView, Seq<char>>>::empty());
        assert(message_views(out@) =~= Seq::<MessageView>::empty());
    }
    for m in it: msgs.into_iter()
        invariant
            it.seq() == msgs@,
            rs == msgs@.map_values(|m: AnyMessage| any_message_to_internal(m)),
            collect_results(rs.take(it.index() as int)) == Ok::<_, Seq<char>>(message_views(out@)),
    {
        let ghost i = it.index() as int;
        proof {
            lemma_collect_results_step(rs, i);
        }
        let converted = match m {
            AnyMessage::Message(m) => Ok(m),
            AnyMessage::OMessage(m) => m.to_internal(),
        };
        match converted {
            Ok(im) => {
                let ghost before = message_views(out@);
                out.push(im);
                proof {
                    assert(message_views(out@) =~= before.push(im@));
                }
            },
            Err(e) => {
                proof {
                    lemma_collect_results_err(rs, i + 1);
                }
                return Err(e);
            },
        }
    }
    proof {
        assert(rs.take(msgs@.len() as int) =~= rs);
    }
    Ok(out)
}

/// A collection that succeeds holds one value per result, each the value of
/// the result at its position.
pub proof fn lemma_collect_results_values<A>(rs: Seq<Result<A, Seq<char>>>)
    ensures
        collect_results(rs) matches Ok(v) ==> v.len() == rs.len() && forall|i: int|
            0 <= i < rs.len() ==> rs[i] == Ok::<A, Seq<char>>(#[trigger] v[i]),
    decreases rs.len(),
{
    if rs.len() > 0 {
        let p = rs.drop_last();
        lemma_collect_results_values(p);
        if let Ok(v) = collect_results(rs) {
            let pv = collect_results(p)->Ok_0;
            assert(v == pv.push(rs.last()->Ok_0));
            assert forall|i: int| 0 <= i < rs.len() implies rs[i] == Ok::<A, Seq<char>>(
                #[trigger] v[i],
            ) by {
                if i < p.len() {
                    assert(p[i] == rs[i]);
                }
            }
        }
    }
}

/// `ContentArrayItem::new` accepts a type exactly when it is `text` or starts
/// with `image/`; it then keeps the type and the content as given, and
/// otherwise its error names the type.
pub proof fn law_new_item_accepts(m_type: Seq<char>, m_content: Seq<char>)
    ensures
        new_item(m_type, m_content) is Ok <==> (m_type == seq!['t', 'e', 'x', 't'] || seq![
            'i',
            'm',
            'a',
            'g',
            'e',
            '/',
        ].is_prefix_of(m_type)),
        new_item(m_type, m_content) matches Ok(item) ==> item == (m_type, m_content),
        new_item(m_type, m_content) matches Err(e) ==> e
            == "ContentArrayItem::new() received invalid type: "@ + m_type,
{
}

/// Converting a mixed list to the internal shape: an element that is already
/// internal comes out unchanged, an OpenAI one keeps its role, tool calls and
/// tool call id, each at its own position; a list of internal messages alone
/// always converts, to those same messages.
pub proof fn law_any_messages_to_internal(msgs: Seq<AnyMessage>)
    ensures
        collect_results(msgs.map_values(|m: AnyMessage| any_message_to_internal(m))) matches Ok(v)
            ==> {
            &&& v.len() == msgs.len()
            &&& forall|i: int|
                0 <= i < msgs.len() ==> (#[trigger] msgs[i] matches AnyMessage::Message(m)
                    ==> v[i] == m@)
            &&& forall|i: int|
                0 <= i < msgs.len() ==> (#[trigger] msgs[i] matches AnyMessage::OMessage(o) ==> {
                    &&& v[i].role == o@.role
                    &&& v[i].tool_calls == o@.tool_calls
                    &&& v[i].tool_call_id == o@.tool_call_id
                })
        },
        (forall|i: int| 0 <= i < msgs.len() ==> #[trigger] msgs[i] is Message) ==> collect_results(
            msgs.map_values(|m: AnyMessage| any_message_to_internal(m)),
        ) == Ok::<_, Seq<char>>(msgs.map_values(|m: AnyMessage| m->Message_0@)),
{
    let rs = msgs.map_values(|m: AnyMessage| any_message_to_internal(m));
    lemma_collect_results_values(rs);
    if forall|i: int| 0 <= i < msgs.len() ==> #[trigger] msgs[i] is Message {
        assert forall|i: int| 0 <= i < rs.len() implies (#[trigger] rs[i]) is Ok by {
            assert(msgs[i] is Message);
        }
        crate::openai::lemma_collect_results_all_ok(rs);
        assert(Seq::new(rs.len(), |i: int| rs[i]->Ok_0) =~= msgs.map_values(
            |m: AnyMessage| m->Message_0@,
        ));
    }
}

} // verus!
