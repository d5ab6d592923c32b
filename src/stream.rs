//! The streaming translator: a state machine that turns the dialect-C delta
//! stream into the framed dialect-M event stream.
use vstd::prelude::*;
use crate::events::{
    format_all, format_sse, map_stop_reason, stop_reason_for, views, BlockDelta, BlockStart, Event,
    EventV, StreamEvent,
};
use crate::ids::fresh_id;
use crate::json::{bool_of, copy_string, field_str, items_of, str_eq, text_of, u64_of, Json, JsonV};
use crate::sanitize::{sanitized, strip_hallucinated_tags};
use crate::signature::{generate_signature, signature_of};

verus! {

/// The block that is open, if any. At most one block is open at a time.
#[derive(Debug, Clone, Copy, PartialEq, Eq, Structural)]
pub enum OpenBlock {
    Idle,
    Text,
    Thinking,
    ToolCall,
    ToolResult,
}

/// One `data:` payload of the upstream stream.
#[derive(Debug, PartialEq)]
pub enum Payload {
    /// The `[DONE]` marker.
    Done,
    /// A payload that parsed as JSON.
    Document(Json),
    /// A payload that did not parse.
    Malformed,
}

/// What the translator knows between payloads.
pub struct StreamState {
    pub model: Seq<char>,
    pub msg_id: Seq<char>,
    /// The index that the next block will get.
    pub next_index: u64,
    pub open: OpenBlock,
    /// The thinking text of the open thinking block.
    pub thinking: Seq<char>,
    pub input_tokens: u64,
    pub output_tokens: u64,
    pub finish_reason: Option<Seq<char>>,
    pub started: bool,
    pub finished: bool,
}

/// A state after a step, and the frames that the step emitted.
pub type Step = (StreamState, Seq<EventV>);

pub open spec fn initial_state(model: Seq<char>, msg_id: Seq<char>) -> StreamState {
    StreamState {
        model,
        msg_id,
        next_index: 0,
        open: OpenBlock::Idle,
        thinking: Seq::empty(),
        input_tokens: 0,
        output_tokens: 0,
        finish_reason: None,
        started: false,
        finished: false,
    }
}

/// The index of the open block.
pub open spec fn current_index(s: StreamState) -> u64 {
    (s.next_index - 1) as u64
}

/// Whether one more block index is available.
pub open spec fn can_open(s: StreamState) -> bool {
    s.next_index < u64::MAX
}

pub open spec fn delta_frame(index: u64, d: BlockDelta<Seq<char>>) -> EventV {
    StreamEvent::ContentBlockDelta { index, delta: d }
}

/// Closes the open block: a thinking block first gets its signature, then any
/// open block gets its stop frame.
#[verifier::opaque]
pub open spec fn close_block(s: StreamState) -> Step {
    let sig: Seq<EventV> = if s.open == OpenBlock::Thinking {
        seq![delta_frame(current_index(s), BlockDelta::Signature(signature_of(s.thinking)))]
    } else {
        Seq::empty()
    };
    let stop: Seq<EventV> = if s.open != OpenBlock::Idle {
        seq![StreamEvent::ContentBlockStop { index: current_index(s) }]
    } else {
        Seq::empty()
    };
    (StreamState { open: OpenBlock::Idle, thinking: Seq::empty(), ..s }, sig + stop)
}

/// Opens a block of `kind` at the next index.
pub open spec fn open_block(s: StreamState, kind: OpenBlock, block: BlockStart<Seq<char>>) -> Step {
    (
        StreamState { open: kind, next_index: (s.next_index + 1) as u64, ..s },
        seq![StreamEvent::ContentBlockStart { index: s.next_index, block }],
    )
}

/// Closes the open block, then opens a block of `kind`.
#[verifier::opaque]
pub open spec fn switch_block(s: StreamState, kind: OpenBlock, block: BlockStart<Seq<char>>) -> Step {
    let c = close_block(s);
    if can_open(c.0) {
        let o = open_block(c.0, kind, block);
        (o.0, c.1 + o.1)
    } else {
        c
    }
}

/// A reasoning fragment.
#[verifier::opaque]
pub open spec fn thinking_step(s: StreamState, frag: Seq<char>) -> Step {
    if frag.len() == 0 {
        (s, Seq::empty())
    } else if s.open == OpenBlock::Thinking {
        (
            StreamState { thinking: s.thinking + frag, ..s },
            seq![delta_frame(current_index(s), BlockDelta::Thinking(frag))],
        )
    } else {
        let o = switch_block(s, OpenBlock::Thinking, BlockStart::Thinking);
        if o.0.open == OpenBlock::Thinking {
            (
                StreamState { thinking: frag, ..o.0 },
                o.1 + seq![delta_frame(current_index(o.0), BlockDelta::Thinking(frag))],
            )
        } else {
            o
        }
    }
}

pub open spec fn or_empty(t: Option<Seq<char>>) -> Seq<char> {
    match t {
        Some(v) => v,
        None => Seq::empty(),
    }
}

/// A member that is an object or absent, read as a value (`null` when absent).
pub open spec fn member_or_null(j: JsonV, key: Seq<char>) -> JsonV {
    match j.field(key) {
        Some(v) => v,
        None => JsonV::Null,
    }
}

/// One entry of `delta.tool_calls`: an entry with a non-empty `id` opens a
/// tool-use block; a non-empty `function.arguments` goes to the open tool-use block.
#[verifier::opaque]
pub open spec fn tool_call_step(s: StreamState, entry: JsonV) -> Step {
    let func = member_or_null(entry, "function"@);
    let id = or_empty(text_of(entry.field("id"@)));
    let name = or_empty(text_of(func.field("name"@)));
    let args = or_empty(text_of(func.field("arguments"@)));
    let o = if id.len() > 0 {
        switch_block(s, OpenBlock::ToolCall, BlockStart::ToolUse { id, name })
    } else {
        (s, Seq::empty())
    };
    if args.len() > 0 && o.0.open == OpenBlock::ToolCall {
        (o.0, o.1 + seq![delta_frame(current_index(o.0), BlockDelta::InputJson(args))])
    } else {
        o
    }
}

pub open spec fn tool_calls_step(s: StreamState, entries: Seq<JsonV>) -> Step
    decreases entries.len(),
{
    if entries.len() == 0 {
        (s, Seq::empty())
    } else {
        let prev = tool_calls_step(s, entries.drop_last());
        let next = tool_call_step(prev.0, entries.last());
        (next.0, prev.1 + next.1)
    }
}

/// The start of a tool result: the open block closes, and a tool-result block
/// opens where `tool_call_id` is a non-empty string.
#[verifier::opaque]
pub open spec fn tool_result_step(s: StreamState, delta: JsonV) -> Step {
    let id = or_empty(text_of(delta.field("tool_call_id"@)));
    if id.len() > 0 {
        let is_error = match bool_of(delta.field("is_error"@)) {
            Some(b) => b,
            None => false,
        };
        switch_block(
            s,
            OpenBlock::ToolResult,
            BlockStart::ToolResult { tool_use_id: id, is_error },
        )
    } else {
        close_block(s)
    }
}

/// A non-empty content fragment outside a tool result. The first fragment of a
/// text block is sanitized, and opens the block only if something is left.
#[verifier::opaque]
pub open spec fn text_step(s: StreamState, frag: Seq<char>) -> Step {
    if s.open == OpenBlock::Text {
        (s, seq![delta_frame(current_index(s), BlockDelta::Text(frag))])
    } else {
        let clean = sanitized(frag);
        if clean.len() == 0 {
            (s, Seq::empty())
        } else {
            let o = switch_block(s, OpenBlock::Text, BlockStart::Text);
            if o.0.open == OpenBlock::Text {
                (o.0, o.1 + seq![delta_frame(current_index(o.0), BlockDelta::Text(clean))])
            } else {
                o
            }
        }
    }
}

#[verifier::opaque]
pub open spec fn content_step(s: StreamState, content: Seq<char>) -> Step {
    if content.len() == 0 {
        (s, Seq::empty())
    } else if s.open == OpenBlock::ToolResult {
        (s, seq![delta_frame(current_index(s), BlockDelta::Content(content))])
    } else {
        text_step(s, content)
    }
}

pub open spec fn starts_tool_result(d: JsonV) -> bool {
    text_of(d.field("role"@)) == Some("tool"@) || d.field("tool_call_id"@) is Some
}

/// The `delta` of one element of `choices`: reasoning, then tool calls, then the
/// start of a tool result, then content.
#[verifier::opaque]
pub open spec fn delta_step(s: StreamState, d: JsonV) -> Step {
    let a = thinking_step(s, or_empty(text_of(d.field("reasoning_content"@))));
    let b = match items_of(d.field("tool_calls"@)) {
        Some(entries) => tool_calls_step(a.0, entries),
        None => (a.0, Seq::empty()),
    };
    let c = if starts_tool_result(d) {
        tool_result_step(b.0, d)
    } else {
        (b.0, Seq::empty())
    };
    let e = content_step(c.0, or_empty(text_of(d.field("content"@))));
    (e.0, a.1 + b.1 + c.1 + e.1)
}

/// One element of `choices`: its finish reason is kept, then its delta is read.
#[verifier::opaque]
pub open spec fn choice_step(s: StreamState, choice: JsonV) -> Step {
    let s0 = match text_of(choice.field("finish_reason"@)) {
        Some(f) => StreamState { finish_reason: Some(f), ..s },
        None => s,
    };
    delta_step(s0, member_or_null(choice, "delta"@))
}

pub open spec fn choices_step(s: StreamState, choices: Seq<JsonV>) -> Step
    decreases choices.len(),
{
    if choices.len() == 0 {
        (s, Seq::empty())
    } else {
        let prev = choices_step(s, choices.drop_last());
        let next = choice_step(prev.0, choices.last());
        (next.0, prev.1 + next.1)
    }
}

pub open spec fn with_usage(s: StreamState, doc: JsonV) -> StreamState {
    match doc.field("usage"@) {
        Some(u) => StreamState {
            input_tokens: match u64_of(u.field("prompt_tokens"@)) {
                Some(n) => n,
                None => s.input_tokens,
            },
            output_tokens: match u64_of(u.field("completion_tokens"@)) {
                Some(n) => n,
                None => s.output_tokens,
            },
            ..s
        },
        None => s,
    }
}

/// A payload that parsed as JSON.
#[verifier::opaque]
pub open spec fn document_step(s: StreamState, doc: JsonV) -> Step {
    let s0 = with_usage(s, doc);
    match items_of(doc.field("choices"@)) {
        Some(choices) => choices_step(s0, choices),
        None => (s0, Seq::empty()),
    }
}

/// The stop reason announced at the end of the stream.
pub open spec fn final_stop_reason(s: StreamState) -> Seq<char> {
    match s.finish_reason {
        Some(f) => stop_reason_for(f),
        None => "end_turn"@,
    }
}

/// The end of the stream: the open block closes, then `message_delta` and
/// `message_stop` follow.
#[verifier::opaque]
pub open spec fn done_step(s: StreamState) -> Step {
    let c = close_block(s);
    (
        StreamState { finished: true, ..c.0 },
        c.1 + seq![
            StreamEvent::MessageDelta {
                stop_reason: final_stop_reason(s),
                output_tokens: s.output_tokens,
            },
            StreamEvent::MessageStop,
        ],
    )
}

/// One payload. Once the stream has ended, payloads are ignored.
pub open spec fn payload_step(s: StreamState, p: Payload) -> Step {
    if s.finished {
        (s, Seq::empty())
    } else {
        match p {
            Payload::Done => done_step(s),
            Payload::Document(j) => document_step(s, j@),
            Payload::Malformed => (s, Seq::empty()),
        }
    }
}

/// The end of the upstream stream without `[DONE]`.
pub open spec fn finish_step(s: StreamState) -> Step {
    if s.finished {
        (s, Seq::empty())
    } else {
        done_step(s)
    }
}

pub open spec fn start_step(s: StreamState) -> Step {
    (
        StreamState { started: true, ..s },
        seq![StreamEvent::MessageStart { id: s.msg_id, model: s.model }],
    )
}

/// The translator of one streamed response.
pub struct StreamTransformer {
    model: String,
    msg_id: String,
    next_index: u64,
    open: OpenBlock,
    thinking_content: String,
    input_tokens: u64,
    output_tokens: u64,
    last_finish_reason: Option<String>,
    started: bool,
    finished: bool,
}

pub open spec fn opt_view(o: Option<String>) -> Option<Seq<char>> {
    match o {
        Some(s) => Some(s@),
        None => None,
    }
}

impl View for StreamTransformer {
    type V = StreamState;

    closed spec fn view(&self) -> StreamState {
        StreamState {
            model: self.model@,
            msg_id: self.msg_id@,
            next_index: self.next_index,
            open: self.open,
            thinking: self.thinking_content@,
            input_tokens: self.input_tokens,
            output_tokens: self.output_tokens,
            finish_reason: opt_view(self.last_finish_reason),
            started: self.started,
            finished: self.finished,
        }
    }
}

/// A state in which an open block has an index.
pub open spec fn state_wf(s: StreamState) -> bool {
    s.open != OpenBlock::Idle ==> s.next_index >= 1
}

fn emit(out: &mut Vec<Event>, e: Event)
    ensures
        views(final(out)@) == views(old(out)@).push(e@),
{
    out.push(e);
    assert(views(out@) =~= views(old(out)@).push(e@));
}

impl StreamTransformer {
    /// An open block always has an index.
    #[verifier::type_invariant]
    spec fn well_formed(&self) -> bool {
        state_wf(self@)
    }

    /// A translator for a response of `model` whose message id is `msg_id`.
    pub fn with_message_id(model: &str, msg_id: &str) -> (r: StreamTransformer)
        ensures
            r@ == initial_state(model@, msg_id@),
    {
        StreamTransformer {
            model: copy_string(model),
            msg_id: copy_string(msg_id),
            next_index: 0,
            open: OpenBlock::Idle,
            thinking_content: String::new(),
            input_tokens: 0,
            output_tokens: 0,
            last_finish_reason: None,
            started: false,
            finished: false,
        }
    }

    /// A translator for a response of `model`, with a fresh `msg_…` id.
    pub fn new(model: &str) -> (r: StreamTransformer)
        ensures
            r@ == initial_state(model@, r@.msg_id),
            r@.msg_id.len() == 28,
            r@.msg_id.subrange(0, 4) == "msg_"@,
            crate::ids::all_lower_hex(r@.msg_id.subrange(4, 28)),
    {
        let id = fresh_id("msg_");
        proof {
            reveal_strlit("msg_");
        }
        StreamTransformer::with_message_id(model, id.as_str())
    }

    /// The `message_start` frame; the stream has started.
    pub fn start_frame(&mut self) -> (r: Event)
        requires
            !old(self)@.started,
        ensures
            final(self)@ == start_step(old(self)@).0,
            seq![r@] == start_step(old(self)@).1,
    {
        proof {
            use_type_invariant(&*self);
        }
        self.started = true;
        StreamEvent::MessageStart {
            id: copy_string(self.msg_id.as_str()),
            model: copy_string(self.model.as_str()),
        }
    }

    /// The `message_start` frame as server-sent-event text.
    pub fn start_event(&mut self) -> (r: String)
        requires
            !old(self)@.started,
        ensures
            final(self)@ == start_step(old(self)@).0,
            r@ == crate::events::frame_text(start_step(old(self)@).1[0]),
    {
        let e = self.start_frame();
        format_sse(&e)
    }

    fn current(&self) -> (r: u64)
        requires
            self.next_index >= 1,
        ensures
            r == current_index(self@),
    {
        self.next_index - 1
    }

    fn close_current_block(&mut self, out: &mut Vec<Event>)
        requires
            state_wf(old(self)@),
        ensures
            state_wf(final(self)@),
            final(self)@ == close_block(old(self)@).0,
            views(final(out)@) == views(old(out)@) + close_block(old(self)@).1,
    {
        proof {
        reveal(close_block);
        }
        let ghost s = self@;
        let ghost o0 = views(out@);
        if self.open == OpenBlock::Thinking {
            let sig = generate_signature(self.thinking_content.as_str());
            let i = self.current();
            emit(out, StreamEvent::ContentBlockDelta { index: i, delta: BlockDelta::Signature(sig) });
        }
        if self.open != OpenBlock::Idle {
            let i = self.current();
            emit(out, StreamEvent::ContentBlockStop { index: i });
        }
        self.open = OpenBlock::Idle;
        self.thinking_content = String::new();
        assert(views(out@) =~= o0 + close_block(s).1);
    }

    /// Closes the open block and opens one of `kind`, where an index is left.
    fn switch_to(&mut self, kind: OpenBlock, block: BlockStart<String>, out: &mut Vec<Event>)
        requires
            state_wf(old(self)@),
            kind != OpenBlock::Idle,
        ensures
            state_wf(final(self)@),
            final(self)@ == switch_block(old(self)@, kind, block@).0,
            views(final(out)@) == views(old(out)@) + switch_block(old(self)@, kind, block@).1,
    {
        proof {
        reveal(switch_block);
        }
        let ghost s = self@;
        let ghost o0 = views(out@);
        self.close_current_block(out);
        if self.next_index < u64::MAX {
            let i = self.next_index;
            let ghost bv = block@;
            emit(out, StreamEvent::ContentBlockStart { index: i, block });
            self.next_index = i + 1;
            self.open = kind;
            assert(views(out@) =~= o0 + switch_block(s, kind, bv).1);
        }
    }

    fn thinking_transition(&mut self, frag: &str, out: &mut Vec<Event>)
        requires
            state_wf(old(self)@),
        ensures
            state_wf(final(self)@),
            final(self)@ == thinking_step(old(self)@, frag@).0,
            views(final(out)@) == views(old(out)@) + thinking_step(old(self)@, frag@).1,
    {
        proof {
        reveal(thinking_step);
        }
        let ghost s = self@;
        let ghost o0 = views(out@);
        if frag.unicode_len() == 0 {
            assert(views(out@) =~= o0 + thinking_step(s, frag@).1);
            return;
        }
        if self.open == OpenBlock::Thinking {
            self.thinking_content = String::from_str(self.thinking_content.as_str()).concat(frag);
            let i = self.current();
            emit(out, StreamEvent::ContentBlockDelta { index: i, delta: BlockDelta::Thinking(copy_string(frag)) });
            assert(views(out@) =~= o0 + thinking_step(s, frag@).1);
        } else {
            self.switch_to(OpenBlock::Thinking, BlockStart::Thinking, out);
            if self.open == OpenBlock::Thinking {
                self.thinking_content = copy_string(frag);
                let i = self.current();
                emit(out, StreamEvent::ContentBlockDelta { index: i, delta: BlockDelta::Thinking(copy_string(frag)) });
            }
            assert(views(out@) =~= o0 + thinking_step(s, frag@).1);
        }
    }

    fn tool_call_transition(&mut self, entry: &Json, out: &mut Vec<Event>)
        requires
            state_wf(old(self)@),
        ensures
            state_wf(final(self)@),
            final(self)@ == tool_call_step(old(self)@, entry@).0,
            views(final(out)@) == views(old(out)@) + tool_call_step(old(self)@, entry@).1,
    {
        proof {
        reveal(tool_call_step);
        }
        let ghost s = self@;
        let ghost o0 = views(out@);
        let null = Json::Null;
        let func: &Json = match entry.get("function") {
            Some(f) => f,
            None => &null,
        };
        let id = match field_str(entry, "id") {
            Some(t) => t,
            None => "",
        };
        let name = match field_str(func, "name") {
            Some(t) => t,
            None => "",
        };
        let args = match field_str(func, "arguments") {
            Some(t) => t,
            None => "",
        };
        proof {
            reveal_strlit("");
        }
        let ghost func_v = member_or_null(entry@, "function"@);
        assert(func@ == func_v);
        assert(id@ == or_empty(text_of(entry@.field("id"@))));
        assert(name@ == or_empty(text_of(func_v.field("name"@))));
        assert(args@ == or_empty(text_of(func_v.field("arguments"@))));
        if id.unicode_len() > 0 {
            self.switch_to(
                OpenBlock::ToolCall,
                BlockStart::ToolUse { id: copy_string(id), name: copy_string(name) },
                out,
            );
        }
        if args.unicode_len() > 0 && self.open == OpenBlock::ToolCall {
            let i = self.current();
            emit(out, StreamEvent::ContentBlockDelta { index: i, delta: BlockDelta::InputJson(copy_string(args)) });
        }
        assert(views(out@) =~= o0 + tool_call_step(s, entry@).1);
    }

    fn tool_calls_transition(&mut self, entries: &Vec<Json>, out: &mut Vec<Event>)
        requires
            state_wf(old(self)@),
        ensures
            state_wf(final(self)@),
            final(self)@ == tool_calls_step(old(self)@, entries@.map_values(|x: Json| x@)).0,
            views(final(out)@) == views(old(out)@) + tool_calls_step(
                old(self)@,
                entries@.map_values(|x: Json| x@),
            ).1,
    {
        let ghost s0 = self@;
        let ghost o0 = views(out@);
        let ghost ev = entries@.map_values(|x: Json| x@);
        let mut i: usize = 0;
        assert(ev.take(0) =~= Seq::<JsonV>::empty());
        assert(views(out@) =~= o0 + tool_calls_step(s0, ev.take(0)).1);
        while i < entries.len()
            invariant
                i <= entries@.len(),
                ev == entries@.map_values(|x: Json| x@),
                state_wf(self@),
                self@ == tool_calls_step(s0, ev.take(i as int)).0,
                views(out@) == o0 + tool_calls_step(s0, ev.take(i as int)).1,
            decreases entries@.len() - i,
        {
            let ghost before = views(out@);
            self.tool_call_transition(&entries[i], out);
            assert(ev.take(i as int + 1).drop_last() =~= ev.take(i as int));
            assert(ev.take(i as int + 1).last() == entries@[i as int]@);
            i = i + 1;
            assert(views(out@) =~= o0 + tool_calls_step(s0, ev.take(i as int)).1);
        }
        assert(ev.take(entries@.len() as int) =~= ev);
    }

    fn tool_result_start(&mut self, delta: &Json, out: &mut Vec<Event>)
        requires
            state_wf(old(self)@),
        ensures
            state_wf(final(self)@),
            final(self)@ == tool_result_step(old(self)@, delta@).0,
            views(final(out)@) == views(old(out)@) + tool_result_step(old(self)@, delta@).1,
    {
        proof {
        reveal(tool_result_step);
        }
        let id = match field_str(delta, "tool_call_id") {
            Some(t) => t,
            None => "",
        };
        proof {
            reveal_strlit("");
        }
        if id.unicode_len() > 0 {
            let is_error = match delta.get("is_error") {
                Some(v) => match v.as_bool() {
                    Some(b) => b,
                    None => false,
                },
                None => false,
            };
            self.switch_to(
                OpenBlock::ToolResult,
                BlockStart::ToolResult { tool_use_id: copy_string(id), is_error },
                out,
            );
        } else {
            self.close_current_block(out);
        }
    }

    fn text_transition(&mut self, frag: &str, out: &mut Vec<Event>)
        requires
            state_wf(old(self)@),
        ensures
            state_wf(final(self)@),
            final(self)@ == text_step(old(self)@, frag@).0,
            views(final(out)@) == views(old(out)@) + text_step(old(self)@, frag@).1,
    {
        proof {
        reveal(text_step);
        }
        let ghost s = self@;
        let ghost o0 = views(out@);
        if self.open == OpenBlock::Text {
            let i = self.current();
            emit(out, StreamEvent::ContentBlockDelta { index: i, delta: BlockDelta::Text(copy_string(frag)) });
            assert(views(out@) =~= o0 + text_step(s, frag@).1);
            return;
        }
        let clean = strip_hallucinated_tags(frag);
        if clean.as_str().unicode_len() == 0 {
            assert(views(out@) =~= o0 + text_step(s, frag@).1);
            return;
        }
        self.switch_to(OpenBlock::Text, BlockStart::Text, out);
        if self.open == OpenBlock::Text {
            let i = self.current();
            emit(out, StreamEvent::ContentBlockDelta { index: i, delta: BlockDelta::Text(clean) });
        }
        assert(views(out@) =~= o0 + text_step(s, frag@).1);
    }

    fn content_transition(&mut self, content: &str, out: &mut Vec<Event>)
        requires
            state_wf(old(self)@),
        ensures
            state_wf(final(self)@),
            final(self)@ == content_step(old(self)@, content@).0,
            views(final(out)@) == views(old(out)@) + content_step(old(self)@, content@).1,
    {
        proof {
        reveal(content_step);
        }
        let ghost s = self@;
        let ghost o0 = views(out@);
        if content.unicode_len() == 0 {
            assert(views(out@) =~= o0 + content_step(s, content@).1);
        } else if self.open == OpenBlock::ToolResult {
            let i = self.current();
            emit(out, StreamEvent::ContentBlockDelta { index: i, delta: BlockDelta::Content(copy_string(content)) });
            assert(views(out@) =~= o0 + content_step(s, content@).1);
        } else {
            self.text_transition(content, out);
        }
    }

    fn process_delta(&mut self, delta: &Json, out: &mut Vec<Event>)
        requires
            state_wf(old(self)@),
        ensures
            state_wf(final(self)@),
            final(self)@ == delta_step(old(self)@, delta@).0,
            views(final(out)@) == views(old(out)@) + delta_step(old(self)@, delta@).1,
    {
        proof {
        reveal(delta_step);
        }
        let ghost s0 = self@;
        let ghost o0 = views(out@);
        let ghost d = delta@;
        proof {
            reveal_strlit("");
        }
        let reasoning = match field_str(delta, "reasoning_content") {
            Some(t) => t,
            None => "",
        };
        assert(reasoning@ == or_empty(text_of(d.field("reasoning_content"@))));
        self.thinking_transition(reasoning, out);
        let ghost a = thinking_step(s0, or_empty(text_of(d.field("reasoning_content"@))));
        assert(views(out@) == o0 + a.1);
        let ghost b = match items_of(d.field("tool_calls"@)) {
            Some(entries) => tool_calls_step(a.0, entries),
            None => (a.0, Seq::<EventV>::empty()),
        };
        match delta.get("tool_calls") {
            Some(tc) => match tc.as_array() {
                Some(entries) => {
                    assert(items_of(d.field("tool_calls"@)) == Some(entries@.map_values(|x: Json| x@)));
                    self.tool_calls_transition(entries, out);
                },
                None => {
                    assert(items_of(d.field("tool_calls"@)) is None);
                },
            },
            None => {
                assert(items_of(d.field("tool_calls"@)) is None);
            },
        }
        assert(self@ == b.0);
        assert(views(out@) =~= o0 + a.1 + b.1);
        let ghost ob = views(out@);
        let is_tool_role = match field_str(delta, "role") {
            Some(r) => str_eq(r, "tool"),
            None => false,
        };
        proof {
            reveal_strlit("tool");
        }
        assert((is_tool_role || delta@.field("tool_call_id"@) is Some) == starts_tool_result(d));
        if is_tool_role || delta.get("tool_call_id").is_some() {
            self.tool_result_start(delta, out);
        }
        let ghost c = if starts_tool_result(d) {
            tool_result_step(b.0, d)
        } else {
            (b.0, Seq::empty())
        };
        assert(self@ == c.0);
        assert(views(out@) =~= ob + c.1);
        let ghost oc = views(out@);
        let content = match field_str(delta, "content") {
            Some(t) => t,
            None => "",
        };
        assert(content@ == or_empty(text_of(d.field("content"@))));
        self.content_transition(content, out);
        let ghost e = content_step(c.0, or_empty(text_of(d.field("content"@))));
        assert(views(out@) =~= oc + e.1);
        assert(views(out@) =~= o0 + delta_step(s0, d).1);
    }

    fn process_choice(&mut self, choice: &Json, out: &mut Vec<Event>)
        requires
            state_wf(old(self)@),
        ensures
            state_wf(final(self)@),
            final(self)@ == choice_step(old(self)@, choice@).0,
            views(final(out)@) == views(old(out)@) + choice_step(old(self)@, choice@).1,
    {
        proof {
        reveal(choice_step);
        }
        match field_str(choice, "finish_reason") {
            Some(f) => {
                self.last_finish_reason = Some(copy_string(f));
            },
            None => {},
        }
        let null = Json::Null;
        let delta: &Json = match choice.get("delta") {
            Some(d) => d,
            None => &null,
        };
        self.process_delta(delta, out);
    }

    fn process_document(&mut self, doc: &Json, out: &mut Vec<Event>)
        requires
            state_wf(old(self)@),
        ensures
            state_wf(final(self)@),
            final(self)@ == document_step(old(self)@, doc@).0,
            views(final(out)@) == views(old(out)@) + document_step(old(self)@, doc@).1,
    {
        proof {
        reveal(document_step);
        }
        let ghost s = self@;
        let ghost o0 = views(out@);
        match doc.get("usage") {
            Some(u) => {
                match u.get("prompt_tokens") {
                    Some(v) => match v.as_u64() {
                        Some(n) => {
                            self.input_tokens = n;
                        },
                        None => {},
                    },
                    None => {},
                }
                match u.get("completion_tokens") {
                    Some(v) => match v.as_u64() {
                        Some(n) => {
                            self.output_tokens = n;
                        },
                        None => {},
                    },
                    None => {},
                }
            },
            None => {},
        }
        assert(self@ == with_usage(s, doc@));
        let ghost s0 = self@;
        let choices = match doc.get("choices") {
            Some(c) => c.as_array(),
            None => None,
        };
        match choices {
            Some(cs) => {
                let ghost cv = cs@.map_values(|x: Json| x@);
                let mut i: usize = 0;
                assert(cv.take(0) =~= Seq::<JsonV>::empty());
                assert(views(out@) =~= o0 + choices_step(s0, cv.take(0)).1);
                while i < cs.len()
                    invariant
                        i <= cs@.len(),
                        cv == cs@.map_values(|x: Json| x@),
                        state_wf(self@),
                        self@ == choices_step(s0, cv.take(i as int)).0,
                        views(out@) == o0 + choices_step(s0, cv.take(i as int)).1,
                    decreases cs@.len() - i,
                {
                    self.process_choice(&cs[i], out);
                    assert(cv.take(i as int + 1).drop_last() =~= cv.take(i as int));
                    assert(cv.take(i as int + 1).last() == cs@[i as int]@);
                    i = i + 1;
                    assert(views(out@) =~= o0 + choices_step(s0, cv.take(i as int)).1);
                }
                assert(cv.take(cs@.len() as int) =~= cv);
            },
            None => {
                assert(views(out@) =~= o0 + document_step(s, doc@).1);
            },
        }
    }

    fn done(&mut self, out: &mut Vec<Event>)
        requires
            state_wf(old(self)@),
        ensures
            state_wf(final(self)@),
            final(self)@ == done_step(old(self)@).0,
            views(final(out)@) == views(old(out)@) + done_step(old(self)@).1,
    {
        proof {
        reveal(done_step);
        }
        let ghost s = self@;
        let ghost o0 = views(out@);
        let reason: &str = match &self.last_finish_reason {
            Some(f) => map_stop_reason(f.as_str()),
            None => "end_turn",
        };
        let reason = copy_string(reason);
        let tokens = self.output_tokens;
        self.close_current_block(out);
        emit(out, StreamEvent::MessageDelta { stop_reason: reason, output_tokens: tokens });
        emit(out, StreamEvent::MessageStop);
        self.finished = true;
        assert(views(out@) =~= o0 + done_step(s).1);
    }

    /// The frames for one payload.
    pub fn process_payload(&mut self, payload: &Payload) -> (r: Vec<Event>)
        ensures
            state_wf(final(self)@),
            final(self)@ == payload_step(old(self)@, *payload).0,
            views(r@) == payload_step(old(self)@, *payload).1,
    {
        proof {
            use_type_invariant(&*self);
        }
        let mut out: Vec<Event> = Vec::new();
        assert(views(out@) =~= Seq::<EventV>::empty());
        if self.finished {
            return out;
        }
        match payload {
            Payload::Done => self.done(&mut out),
            Payload::Document(doc) => self.process_document(doc, &mut out),
            Payload::Malformed => {},
        }
        assert(views(out@) =~= payload_step(old(self)@, *payload).1);
        out
    }

    /// The frames for one payload, as server-sent-event text.
    pub fn process_chunk(&mut self, payload: &Payload) -> (r: Vec<String>)
        ensures
            state_wf(final(self)@),
            final(self)@ == payload_step(old(self)@, *payload).0,
            r@.len() == payload_step(old(self)@, *payload).1.len(),
            forall|i: int| 0 <= i < r@.len() ==> #[trigger] r@[i]@ == crate::events::frame_text(
                payload_step(old(self)@, *payload).1[i],
            ),
    {
        proof {
            use_type_invariant(&*self);
        }
        let events = self.process_payload(payload);
        format_all(&events)
    }

    /// The closing frames when the upstream stream ends without `[DONE]`;
    /// none if the stream has already ended.
    pub fn finish_frames(&mut self) -> (r: Vec<Event>)
        ensures
            state_wf(final(self)@),
            final(self)@ == finish_step(old(self)@).0,
            views(r@) == finish_step(old(self)@).1,
    {
        proof {
            use_type_invariant(&*self);
        }
        let mut out: Vec<Event> = Vec::new();
        assert(views(out@) =~= Seq::<EventV>::empty());
        if !self.finished {
            self.done(&mut out);
        }
        assert(views(out@) =~= finish_step(old(self)@).1);
        out
    }

    /// The closing frames as server-sent-event text.
    pub fn finish(&mut self) -> (r: Vec<String>)
        ensures
            state_wf(final(self)@),
            final(self)@ == finish_step(old(self)@).0,
            r@.len() == finish_step(old(self)@).1.len(),
            forall|i: int| 0 <= i < r@.len() ==> #[trigger] r@[i]@ == crate::events::frame_text(
                finish_step(old(self)@).1[i],
            ),
    {
        proof {
            use_type_invariant(&*self);
        }
        let events = self.finish_frames();
        format_all(&events)
    }
}

} // verus!
