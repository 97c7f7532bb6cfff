//! Turns the chunks of a streaming completion into what the client shows:
//! content deltas, complete tool calls and tool result messages.
use vstd::prelude::*;

use crate::chat_completions::comp_stream::{CompletionResponseChunk, CompletionResponseChunkChoice};
use crate::messages::omessage_views;
use crate::openai::{OMessage, OMessageView};
use crate::text::{opt_string_view, push_str, str_eq};

verus! {

/// The function of a tool call under construction: its name, if known, and
/// the arguments received so far.
#[derive(Debug)]
pub struct ToolCallFunction {
    pub name: Option<String>,
    pub arguments: String,
}

impl Clone for ToolCallFunction {
    fn clone(&self) -> (res: Self)
        ensures
            res == *self,
    {
        ToolCallFunction { name: clone_opt_string(&self.name), arguments: self.arguments.clone() }
    }
}

/// A tool call as the collector assembles it from its parts.
#[derive(Debug)]
pub struct ToolCallContent {
    pub id: Option<String>,
    pub tool_type: Option<String>,
    pub function: ToolCallFunction,
}

impl Clone for ToolCallContent {
    fn clone(&self) -> (res: Self)
        ensures
            res == *self,
    {
        ToolCallContent {
            id: clone_opt_string(&self.id),
            tool_type: clone_opt_string(&self.tool_type),
            function: self.function.clone(),
        }
    }
}

/// The view of a tool call: id, type, function name and arguments.
pub struct ToolCallContentView {
    pub id: Option<Seq<char>>,
    pub tool_type: Option<Seq<char>>,
    pub name: Option<Seq<char>>,
    pub arguments: Seq<char>,
}

impl View for ToolCallContent {
    type V = ToolCallContentView;

    open spec fn view(&self) -> ToolCallContentView {
        ToolCallContentView {
            id: opt_string_view(self.id),
            tool_type: opt_string_view(self.tool_type),
            name: opt_string_view(self.function.name),
            arguments: self.function.arguments@,
        }
    }
}

/// The function part of one tool call delta.
#[derive(Debug)]
pub struct ToolCallFunctionPart {
    pub name: Option<String>,
    pub arguments: Option<String>,
}

/// One tool call delta of a chunk (an element of the delta's `tool_calls`
/// array that has the shape of a tool call part).
#[derive(Debug)]
pub struct ToolCallPart {
    pub id: Option<String>,
    pub index: Option<usize>,
    pub tool_type: Option<String>,
    pub function: Option<ToolCallFunctionPart>,
}

/// What the collector yields.
#[derive(Debug)]
pub enum CollectedChunk {
    ContentDelta { content: String },
    ToolCall { content: ToolCallContent },
    ToolResMessages { content: Vec<OMessage> },
}

/// The view of a collected chunk.
pub enum CollectedChunkView {
    ContentDelta(Seq<char>),
    ToolCall(ToolCallContentView),
    ToolResMessages(Seq<OMessageView>),
}

impl View for CollectedChunk {
    type V = CollectedChunkView;

    open spec fn view(&self) -> CollectedChunkView {
        match self {
            CollectedChunk::ContentDelta { content } => CollectedChunkView::ContentDelta(content@),
            CollectedChunk::ToolCall { content } => CollectedChunkView::ToolCall(content@),
            CollectedChunk::ToolResMessages { content } => CollectedChunkView::ToolResMessages(
                omessage_views(content@),
            ),
        }
    }
}

/// The views of a sequence of collected chunks.
pub open spec fn collected_views(v: Seq<CollectedChunk>) -> Seq<CollectedChunkView> {
    v.map_values(|c: CollectedChunk| c@)
}

/// The text of the content deltas among `chunks`, joined in order.
pub open spec fn content_text(chunks: Seq<CollectedChunkView>) -> Seq<char>
    decreases chunks.len(),
{
    if chunks.len() == 0 {
        seq![]
    } else {
        content_text(chunks.drop_last()) + match chunks.last() {
            CollectedChunkView::ContentDelta(c) => c,
            _ => Seq::<char>::empty(),
        }
    }
}

/// The tool call in progress after one tool call part: a part with an index
/// starts a call when none is in progress; a call in progress takes the
/// part's arguments (appended) and its id, type and name where given.
pub open spec fn apply_tool_call_part(cur: Option<ToolCallContentView>, part: ToolCallPart) -> Option<
    ToolCallContentView,
> {
    let name_of_part = match part.function {
        Some(f) => opt_string_view(f.name),
        None => None,
    };
    let started = if part.index is Some && cur is None {
        Some(
            ToolCallContentView {
                id: opt_string_view(part.id),
                tool_type: opt_string_view(part.tool_type),
                name: name_of_part,
                arguments: seq![],
            },
        )
    } else {
        cur
    };
    match started {
        None => None,
        Some(c) => Some(
            ToolCallContentView {
                id: if part.id is Some {
                    opt_string_view(part.id)
                } else {
                    c.id
                },
                tool_type: if part.tool_type is Some {
                    opt_string_view(part.tool_type)
                } else {
                    c.tool_type
                },
                name: if name_of_part is Some {
                    name_of_part
                } else {
                    c.name
                },
                arguments: c.arguments + match part.function {
                    Some(f) => match f.arguments {
                        Some(a) => a@,
                        None => Seq::<char>::empty(),
                    },
                    None => Seq::<char>::empty(),
                },
            },
        ),
    }
}

/// The tool call in progress after the parts `parts`, in order.
pub open spec fn apply_tool_call_parts(cur: Option<ToolCallContentView>, parts: Seq<ToolCallPart>) -> Option<
    ToolCallContentView,
>
    decreases parts.len(),
{
    if parts.len() == 0 {
        cur
    } else {
        apply_tool_call_part(apply_tool_call_parts(cur, parts.drop_last()), parts.last())
    }
}

/// The words `tool_calls`, the finish reason of a completed tool call.
pub open spec fn tool_calls_reason() -> Seq<char> {
    seq!['t', 'o', 'o', 'l', '_', 'c', 'a', 'l', 'l', 's']
}

/// The words `tool_res_messages`, the object of a chunk of tool results.
pub open spec fn tool_res_messages_object() -> Seq<char> {
    seq![
        't', 'o', 'o', 'l', '_', 'r', 'e', 's', '_', 'm', 'e', 's', 's', 'a', 'g', 'e', 's',
    ]
}

/// What one choice of a chunk yields and the tool call in progress after it:
/// its non-empty content, then its tool call parts; a finish reason of
/// `tool_calls` yields the call in progress and ends it.
pub open spec fn choice_step(cur: Option<ToolCallContentView>, choice: CompletionResponseChunkChoice) -> (
    Option<ToolCallContentView>,
    Seq<CollectedChunkView>,
) {
    let content = match choice.delta.content {
        Some(c) => if c@.len() > 0 {
            seq![CollectedChunkView::ContentDelta(c@)]
        } else {
            seq![]
        },
        None => seq![],
    };
    let after = match choice.delta.tool_calls {
        Some(parts) => apply_tool_call_parts(cur, parts@),
        None => cur,
    };
    let finished = match choice.finish_reason {
        Some(r) => r@ == tool_calls_reason(),
        None => false,
    };
    if finished && after is Some {
        (None, content.push(CollectedChunkView::ToolCall(after->Some_0)))
    } else {
        (after, content)
    }
}

/// What the choices `choices` yield, in order, and the tool call in
/// progress after them.
pub open spec fn choices_step(
    cur: Option<ToolCallContentView>,
    choices: Seq<CompletionResponseChunkChoice>,
) -> (Option<ToolCallContentView>, Seq<CollectedChunkView>)
    decreases choices.len(),
{
    if choices.len() == 0 {
        (cur, seq![])
    } else {
        let before = choices_step(cur, choices.drop_last());
        let last = choice_step(before.0, choices.last());
        (last.0, before.1 + last.1)
    }
}

/// What one chunk yields and the tool call in progress after it: a chunk of
/// tool results yields its messages, if any, and leaves the call in
/// progress alone; any other chunk yields what its choices yield.
pub open spec fn chunk_step(cur: Option<ToolCallContentView>, chunk: CompletionResponseChunk) -> (
    Option<ToolCallContentView>,
    Seq<CollectedChunkView>,
) {
    if chunk.object@ == tool_res_messages_object() {
        match chunk.tool_res_messages {
            Some(m) => (cur, seq![CollectedChunkView::ToolResMessages(omessage_views(m@))]),
            None => (cur, seq![]),
        }
    } else {
        choices_step(cur, chunk.choices@)
    }
}

/// What the chunks `chunks` yield, in order, and the tool call in progress
/// after them.
pub open spec fn chunks_step(cur: Option<ToolCallContentView>, chunks: Seq<CompletionResponseChunk>) -> (
    Option<ToolCallContentView>,
    Seq<CollectedChunkView>,
)
    decreases chunks.len(),
{
    if chunks.len() == 0 {
        (cur, seq![])
    } else {
        let before = chunks_step(cur, chunks.drop_last());
        let last = chunk_step(before.0, chunks.last());
        (last.0, before.1 + last.1)
    }
}

/// The view of the tool call in progress.
pub open spec fn opt_tool_call_view(t: Option<ToolCallContent>) -> Option<ToolCallContentView> {
    match t {
        Some(c) => Some(c@),
        None => None,
    }
}

fn clone_opt_string(s: &Option<String>) -> (res: Option<String>)
    ensures
        res == *s,
{
    match s {
        Some(v) => Some(v.clone()),
        None => None,
    }
}

fn apply_part(cur: Option<ToolCallContent>, part: &ToolCallPart) -> (res: Option<ToolCallContent>)
    ensures
        opt_tool_call_view(res) == apply_tool_call_part(opt_tool_call_view(cur), *part),
{
    let started = if part.index.is_some() && cur.is_none() {
        let function_name = match &part.function {
            Some(f) => clone_opt_string(&f.name),
            None => None,
        };
        Some(
            ToolCallContent {
                id: clone_opt_string(&part.id),
                tool_type: clone_opt_string(&part.tool_type),
                function: ToolCallFunction { name: function_name, arguments: String::new() },
            },
        )
    } else {
        cur
    };
    match started {
        None => None,
        Some(mut current) => {
            if let Some(function) = &part.function {
                if let Some(arguments) = &function.arguments {
                    push_str(&mut current.function.arguments, arguments.as_str());
                }
            }
            if let Some(id) = &part.id {
                current.id = Some(id.clone());
            }
            if let Some(tool_type) = &part.tool_type {
                current.tool_type = Some(tool_type.clone());
            }
            if let Some(function) = &part.function {
                if let Some(name) = &function.name {
                    current.function.name = Some(name.clone());
                }
            }
            proof {
                assert(current@.arguments =~= apply_tool_call_part(
                    opt_tool_call_view(cur),
                    *part,
                )->Some_0.arguments);
            }
            Some(current)
        },
    }
}

/// The collector of a streaming completion: it remembers the tool call whose
/// parts are still arriving.
pub struct ChunkCollector {
    current_tool_call: Option<ToolCallContent>,
}

impl View for ChunkCollector {
    type V = Option<ToolCallContentView>;

    closed spec fn view(&self) -> Option<ToolCallContentView> {
        opt_tool_call_view(self.current_tool_call)
    }
}

impl ChunkCollector {
    /// A collector with no tool call in progress.
    pub fn new() -> (res: ChunkCollector)
        ensures
            res@ is None,
    {
        ChunkCollector { current_tool_call: None }
    }

    fn choice(&mut self, choice: &CompletionResponseChunkChoice, out: &mut Vec<CollectedChunk>)
        ensures
            final(self)@ == choice_step(old(self)@, *choice).0,
            collected_views(final(out)@) == collected_views(old(out)@) + choice_step(
                old(self)@,
                *choice,
            ).1,
    {
        let ghost before = collected_views(out@);
        if let Some(content) = &choice.delta.content {
            if !content.as_str().is_empty() {
                out.push(CollectedChunk::ContentDelta { content: content.clone() });
            }
        }
        let ghost with_content = collected_views(out@);
        if let Some(parts) = &choice.delta.tool_calls {
            let mut i: usize = 0;
            while i < parts.len()
                invariant
                    i <= parts@.len(),
                    opt_tool_call_view(self.current_tool_call) == apply_tool_call_parts(
                        old(self)@,
                        parts@.take(i as int),
                    ),
                decreases parts@.len() - i,
            {
                let cur = self.current_tool_call.take();
                self.current_tool_call = apply_part(cur, &parts[i]);
                proof {
                    assert(parts@.take(i + 1).drop_last() =~= parts@.take(i as int));
                }
                i = i + 1;
            }
            proof {
                assert(parts@.take(parts@.len() as int) =~= parts@);
            }
        }
        let finished = match &choice.finish_reason {
            Some(r) => str_eq(r.as_str(), "tool_calls"),
            None => false,
        };
        proof {
            reveal_strlit("tool_calls");
            assert("tool_calls"@ =~= tool_calls_reason());
        }
        if finished && self.current_tool_call.is_some() {
            if let Some(tool_call) = self.current_tool_call.take() {
                out.push(CollectedChunk::ToolCall { content: tool_call });
            }
        }
        proof {
            let step = choice_step(old(self)@, *choice);
            assert(collected_views(out@) =~= before + step.1);
        }
    }

    /// What one chunk yields, in order; the collector keeps the tool call in
    /// progress for the next chunk.
    pub fn step(&mut self, chunk: CompletionResponseChunk) -> (res: Vec<CollectedChunk>)
        ensures
            final(self)@ == chunk_step(old(self)@, chunk).0,
            collected_views(res@) == chunk_step(old(self)@, chunk).1,
    {
        let mut out: Vec<CollectedChunk> = Vec::new();
        let is_tool_res = str_eq(chunk.object.as_str(), "tool_res_messages");
        proof {
            reveal_strlit("tool_res_messages");
            assert("tool_res_messages"@ =~= tool_res_messages_object());
        }
        if is_tool_res {
            if let Some(tool_res_messages) = chunk.tool_res_messages {
                out.push(CollectedChunk::ToolResMessages { content: tool_res_messages });
                proof {
                    assert(collected_views(out@) =~= chunk_step(old(self)@, chunk).1);
                }
            } else {
                proof {
                    assert(collected_views(out@) =~= chunk_step(old(self)@, chunk).1);
                }
            }
            return out;
        }
        let choices = &chunk.choices;
        let mut i: usize = 0;
        proof {
            assert(choices@.take(0) =~= Seq::<CompletionResponseChunkChoice>::empty());
            assert(collected_views(out@) =~= Seq::<CollectedChunkView>::empty());
        }
        while i < choices.len()
            invariant
                i <= choices@.len(),
                *choices == chunk.choices,
                (self@, collected_views(out@)) == choices_step(
                    old(self)@,
                    choices@.take(i as int),
                ),
            decreases choices@.len() - i,
        {
            self.choice(&choices[i], &mut out);
            proof {
                assert(choices@.take(i + 1).drop_last() =~= choices@.take(i as int));
            }
            i = i + 1;
        }
        proof {
            assert(choices@.take(choices@.len() as int) =~= choices@);
        }
        out
    }
}

/// Everything that the chunks yield, in order, starting with no tool call in
/// progress.
pub fn completion_response_chunk_collector(chunks: Vec<CompletionResponseChunk>) -> (res: Vec<
    CollectedChunk,
>)
    ensures
        collected_views(res@) == chunks_step(None, chunks@).1,
{
    let mut collector = ChunkCollector::new();
    let mut out: Vec<CollectedChunk> = Vec::new();
    proof {
        assert(collected_views(out@) =~= Seq::<CollectedChunkView>::empty());
    }
    for chunk in it: chunks.into_iter()
        invariant
            it.seq() == chunks@,
            (collector@, collected_views(out@)) == chunks_step(None, chunks@.take(it.index() as int)),
    {
        let ghost i = it.index() as int;
        let ghost before = collected_views(out@);
        let mut produced = collector.step(chunk);
        out.append(&mut produced);
        proof {
            assert(chunks@.take(i + 1).drop_last() =~= chunks@.take(i));
            assert(collected_views(out@) =~= before + chunk_step(
                chunks_step(None, chunks@.take(i)).0,
                chunks@[i],
            ).1);
        }
    }
    proof {
        assert(chunks@.take(chunks@.len() as int) =~= chunks@);
    }
    out
}

/// The text of all content deltas among the collected chunks, joined in
/// order.
pub fn extract_content_from_chunks(chunks: &Vec<CollectedChunk>) -> (res: String)
    ensures
        res@ == content_text(collected_views(chunks@)),
{
    let mut res = String::new();
    let mut i: usize = 0;
    while i < chunks.len()
        invariant
            i <= chunks@.len(),
            res@ == content_text(collected_views(chunks@.take(i as int))),
        decreases chunks@.len() - i,
    {
        if let CollectedChunk::ContentDelta { content } = &chunks[i] {
            push_str(&mut res, content.as_str());
        }
        proof {
            assert(collected_views(chunks@.take(i + 1)).drop_last() =~= collected_views(
                chunks@.take(i as int),
            ));
        }
        i = i + 1;
    }
    proof {
        assert(chunks@.take(chunks@.len() as int) =~= chunks@);
    }
    res
}

/// The content of the deltas of `choices`, joined in order.
pub open spec fn choices_delta_text(choices: Seq<CompletionResponseChunkChoice>) -> Seq<char>
    decreases choices.len(),
{
    if choices.len() == 0 {
        seq![]
    } else {
        choices_delta_text(choices.drop_last()) + match choices.last().delta.content {
            Some(c) => c@,
            None => Seq::<char>::empty(),
        }
    }
}

/// The content of the deltas of all chunks except those of tool results,
/// joined in order.
pub open spec fn chunks_delta_text(chunks: Seq<CompletionResponseChunk>) -> Seq<char>
    decreases chunks.len(),
{
    if chunks.len() == 0 {
        seq![]
    } else {
        chunks_delta_text(chunks.drop_last()) + if chunks.last().object@
            == tool_res_messages_object() {
            Seq::<char>::empty()
        } else {
            choices_delta_text(chunks.last().choices@)
        }
    }
}

/// The content of two runs of collected chunks, joined, is the content of
/// the first followed by that of the second: extracting the content as the
/// chunks arrive and joining the pieces gives the content of all of them.
pub proof fn law_content_text_append(a: Seq<CollectedChunkView>, b: Seq<CollectedChunkView>)
    ensures
        content_text(a + b) == content_text(a) + content_text(b),
    decreases b.len(),
{
    if b.len() == 0 {
        assert(a + b =~= a);
    } else {
        law_content_text_append(a, b.drop_last());
        assert((a + b).drop_last() =~= a + b.drop_last());
    }
}

proof fn lemma_content_text_push(a: Seq<CollectedChunkView>, x: CollectedChunkView)
    ensures
        content_text(a.push(x)) == content_text(a) + match x {
            CollectedChunkView::ContentDelta(c) => c,
            _ => Seq::<char>::empty(),
        },
{
    assert(a.push(x).drop_last() =~= a);
}

proof fn lemma_choice_content(cur: Option<ToolCallContentView>, choice: CompletionResponseChunkChoice)
    ensures
        content_text(choice_step(cur, choice).1) == match choice.delta.content {
            Some(c) => c@,
            None => Seq::<char>::empty(),
        },
{
    let e = Seq::<CollectedChunkView>::empty();
    assert(content_text(e) == Seq::<char>::empty());
    let content = match choice.delta.content {
        Some(c) => if c@.len() > 0 {
            seq![CollectedChunkView::ContentDelta(c@)]
        } else {
            seq![]
        },
        None => seq![],
    };
    match choice.delta.content {
        Some(c) => {
            if c@.len() > 0 {
                assert(content =~= e.push(CollectedChunkView::ContentDelta(c@)));
                lemma_content_text_push(e, CollectedChunkView::ContentDelta(c@));
                assert(content_text(content) =~= c@);
            } else {
                assert(content_text(content) =~= c@);
            }
        },
        None => {},
    }
    let step = choice_step(cur, choice);
    if step.1.len() != content.len() {
        assert(step.1 == content.push(step.1.last()));
        lemma_content_text_push(content, step.1.last());
    }
}

proof fn lemma_choices_content(cur: Option<ToolCallContentView>, choices: Seq<CompletionResponseChunkChoice>)
    ensures
        content_text(choices_step(cur, choices).1) == choices_delta_text(choices),
    decreases choices.len(),
{
    if choices.len() > 0 {
        let before = choices_step(cur, choices.drop_last());
        lemma_choices_content(cur, choices.drop_last());
        let last = choice_step(before.0, choices.last());
        law_content_text_append(before.1, last.1);
        lemma_choice_content(before.0, choices.last());
    }
}

/// The content that the collector yields, joined, is the content of the
/// deltas of all chunks that are not tool results, joined: tool calls add
/// nothing to it and no content is lost or reordered.
pub proof fn law_collected_content(
    cur: Option<ToolCallContentView>,
    chunks: Seq<CompletionResponseChunk>,
)
    ensures
        content_text(chunks_step(cur, chunks).1) == chunks_delta_text(chunks),
    decreases chunks.len(),
{
    if chunks.len() > 0 {
        let before = chunks_step(cur, chunks.drop_last());
        law_collected_content(cur, chunks.drop_last());
        let last = chunk_step(before.0, chunks.last());
        law_content_text_append(before.1, last.1);
        if chunks.last().object@ == tool_res_messages_object() {
            let e = Seq::<CollectedChunkView>::empty();
            if last.1.len() == 1 {
                assert(last.1 =~= e.push(last.1[0]));
                lemma_content_text_push(e, last.1[0]);
            }
            assert(content_text(last.1) =~= Seq::<char>::empty());
        } else {
            lemma_choices_content(before.0, chunks.last().choices@);
        }
    }
}

/// The tool call parts that change nothing: those without an index that
/// arrive while no tool call is in progress are removed, the others kept in
/// order.
pub open spec fn without_orphan_parts(cur: Option<ToolCallContentView>, parts: Seq<ToolCallPart>) -> Seq<
    ToolCallPart,
>
    decreases parts.len(),
{
    if parts.len() == 0 {
        seq![]
    } else {
        let before = without_orphan_parts(cur, parts.drop_last());
        if apply_tool_call_parts(cur, parts.drop_last()) is None && parts.last().index is None {
            before
        } else {
            before.push(parts.last())
        }
    }
}

/// A tool call part without an index that arrives while no tool call is in
/// progress is ignored: removing every such part leaves the tool call in
/// progress, and so what the choice yields, unchanged; an absent list of
/// parts and an empty one are alike.
pub proof fn law_orphan_parts_ignored(cur: Option<ToolCallContentView>, parts: Seq<ToolCallPart>)
    ensures
        apply_tool_call_parts(cur, without_orphan_parts(cur, parts)) == apply_tool_call_parts(
            cur,
            parts,
        ),
        apply_tool_call_parts(cur, Seq::<ToolCallPart>::empty()) == cur,
    decreases parts.len(),
{
    if parts.len() > 0 {
        law_orphan_parts_ignored(cur, parts.drop_last());
        let before = without_orphan_parts(cur, parts.drop_last());
        if !(apply_tool_call_parts(cur, parts.drop_last()) is None && parts.last().index is None) {
            assert(before.push(parts.last()).drop_last() =~= before);
        }
    }
}

/// A chunk of tool results leaves the tool call in progress alone; with
/// messages it yields exactly one item, which holds all of them, in order;
/// without messages it yields nothing.
pub proof fn law_tool_results_passed_on(
    cur: Option<ToolCallContentView>,
    chunk: CompletionResponseChunk,
)
    requires
        chunk.object@ == tool_res_messages_object(),
    ensures
        chunk_step(cur, chunk).0 == cur,
        chunk.tool_res_messages matches Some(m) ==> chunk_step(cur, chunk).1 == seq![
            CollectedChunkView::ToolResMessages(m@.map_values(|o: OMessage| o@)),
        ],
        chunk.tool_res_messages is None ==> chunk_step(cur, chunk).1.len() == 0,
{
}

} // verus!
