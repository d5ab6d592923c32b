//! The framing laws of the streaming translator, stated over whole transcripts.
use vstd::prelude::*;
use crate::events::{BlockDelta, BlockStart, EventV, StreamEvent};
use crate::stream::{
    can_open, choice_step, choices_step, close_block, content_step, current_index, delta_step,
    document_step, done_step, finish_step, initial_state, open_block,
    payload_step, start_step, state_wf, switch_block, text_step, thinking_step, tool_call_step,
    tool_calls_step, tool_result_step, with_usage, OpenBlock, Payload, StreamState,
};

verus! {

/// Where a reader of a frame sequence stands while it checks the framing rules.
pub enum FrameCheck {
    /// Nothing read yet; the first frame must be `message_start`.
    Fresh,
    /// Inside the message. `next` is the index that the next block must have;
    /// `open` is the block being read: its index, its kind, and whether its
    /// `signature_delta` has been read.
    Body { next: nat, open: Option<(u64, OpenBlock, bool)> },
    /// `message_delta` has been read; `message_stop` must follow.
    Ending,
    /// `message_stop` has been read; nothing may follow.
    Ended,
    /// A rule was broken.
    Broken,
}

pub open spec fn kind_of(b: BlockStart<Seq<char>>) -> OpenBlock {
    match b {
        BlockStart::Text => OpenBlock::Text,
        BlockStart::Thinking => OpenBlock::Thinking,
        BlockStart::ToolUse { .. } => OpenBlock::ToolCall,
        BlockStart::ToolResult { .. } => OpenBlock::ToolResult,
    }
}

/// Whether a delta (other than a signature) belongs in a block of kind `k`.
pub open spec fn delta_fits(k: OpenBlock, d: BlockDelta<Seq<char>>) -> bool {
    match d {
        BlockDelta::Text(_) => k == OpenBlock::Text,
        BlockDelta::Thinking(_) => k == OpenBlock::Thinking,
        BlockDelta::InputJson(_) => k == OpenBlock::ToolCall,
        BlockDelta::Content(_) => k == OpenBlock::ToolResult,
        BlockDelta::Signature(_) => false,
    }
}

/// Reads one frame.
pub open spec fn check_frame(c: FrameCheck, e: EventV) -> FrameCheck {
    match c {
        FrameCheck::Fresh => if e is MessageStart {
            FrameCheck::Body { next: 0, open: None }
        } else {
            FrameCheck::Broken
        },
        FrameCheck::Body { next, open } => match e {
            StreamEvent::ContentBlockStart { index, block } => if open is None && index == next {
                FrameCheck::Body { next: next + 1, open: Some((index, kind_of(block), false)) }
            } else {
                FrameCheck::Broken
            },
            StreamEvent::ContentBlockDelta { index, delta } => match open {
                Some((i, k, signed)) => if index != i || signed {
                    FrameCheck::Broken
                } else if delta is Signature {
                    if k == OpenBlock::Thinking {
                        FrameCheck::Body { next, open: Some((i, k, true)) }
                    } else {
                        FrameCheck::Broken
                    }
                } else if delta_fits(k, delta) {
                    c
                } else {
                    FrameCheck::Broken
                },
                None => FrameCheck::Broken,
            },
            StreamEvent::ContentBlockStop { index } => match open {
                Some((i, k, signed)) => if index == i && (k == OpenBlock::Thinking) == signed {
                    FrameCheck::Body { next, open: None }
                } else {
                    FrameCheck::Broken
                },
                None => FrameCheck::Broken,
            },
            StreamEvent::MessageDelta { .. } => if open is None {
                FrameCheck::Ending
            } else {
                FrameCheck::Broken
            },
            _ => FrameCheck::Broken,
        },
        FrameCheck::Ending => if e is MessageStop {
            FrameCheck::Ended
        } else {
            FrameCheck::Broken
        },
        _ => FrameCheck::Broken,
    }
}

/// Reads a frame sequence from the front.
pub open spec fn check_frames(c: FrameCheck, frames: Seq<EventV>) -> FrameCheck
    decreases frames.len(),
{
    if frames.len() == 0 {
        c
    } else {
        check_frame(check_frames(c, frames.drop_last()), frames.last())
    }
}

/// A frame sequence that obeys every framing rule: exactly one `message_start`,
/// first; blocks that never nest, whose indices run 0, 1, 2, … in order of their
/// `content_block_start`, each ended by one `content_block_stop` with its index;
/// deltas only inside the block of their index and kind; in each thinking block
/// exactly one `signature_delta`, directly before its stop; and last exactly one
/// `message_delta` followed by exactly one `message_stop`.
pub open spec fn well_framed(frames: Seq<EventV>) -> bool {
    check_frames(FrameCheck::Fresh, frames) == FrameCheck::Ended
}

/// The payloads of a stream, read in order.
pub open spec fn run(s: StreamState, payloads: Seq<Payload>) -> (StreamState, Seq<EventV>)
    decreases payloads.len(),
{
    if payloads.len() == 0 {
        (s, Seq::empty())
    } else {
        let prev = run(s, payloads.drop_last());
        let next = payload_step(prev.0, payloads.last());
        (next.0, prev.1 + next.1)
    }
}

/// Every frame that a translator emits for a stream: `message_start`, the frames
/// of each payload, then those of the end of the stream.
pub open spec fn transcript(model: Seq<char>, msg_id: Seq<char>, payloads: Seq<Payload>) -> Seq<EventV> {
    let a = start_step(initial_state(model, msg_id));
    let b = run(a.0, payloads);
    let c = finish_step(b.0);
    a.1 + b.1 + c.1
}

/// Where the frame reader stands after the frames of a translator in state `s`.
pub open spec fn agrees(s: StreamState, c: FrameCheck) -> bool {
    &&& state_wf(s)
    &&& if !s.started {
        c == FrameCheck::Fresh && s.next_index == 0 && s.open == OpenBlock::Idle && !s.finished
    } else if s.finished {
        c == FrameCheck::Ended
    } else {
        c == FrameCheck::Body {
            next: s.next_index as nat,
            open: if s.open == OpenBlock::Idle {
                None
            } else {
                Some((current_index(s), s.open, false))
            },
        }
    }
}

pub proof fn lemma_check_concat(c: FrameCheck, a: Seq<EventV>, b: Seq<EventV>)
    ensures
        check_frames(c, a + b) == check_frames(check_frames(c, a), b),
    decreases b.len(),
{
    if b.len() == 0 {
        assert(a + b =~= a);
    } else {
        lemma_check_concat(c, a, b.drop_last());
        assert((a + b).drop_last() =~= a + b.drop_last());
    }
}

proof fn lemma_check_one(c: FrameCheck, e: EventV)
    ensures
        check_frames(c, seq![e]) == check_frame(c, e),
{
    let t = seq![e];
    assert(t.drop_last() =~= Seq::<EventV>::empty());
    assert(check_frames(c, t.drop_last()) == c);
    assert(t.last() == e);
}

proof fn lemma_check_two(c: FrameCheck, e: EventV, f: EventV)
    ensures
        check_frames(c, seq![e, f]) == check_frame(check_frame(c, e), f),
{
    assert(seq![e, f].drop_last() =~= seq![e]);
    lemma_check_one(c, e);
}

proof fn lemma_check_empty(c: FrameCheck)
    ensures
        check_frames(c, Seq::empty()) == c,
{
}

/// The running state: started and not yet finished.
pub open spec fn live(s: StreamState) -> bool {
    s.started && !s.finished
}

proof fn lemma_close(s: StreamState, c: FrameCheck)
    requires
        agrees(s, c),
        live(s),
    ensures
        agrees(close_block(s).0, check_frames(c, close_block(s).1)),
        live(close_block(s).0),
        close_block(s).0.open == OpenBlock::Idle,
        close_block(s).0.next_index == s.next_index,
{
    reveal(close_block);
    let r = close_block(s);
    if s.open == OpenBlock::Thinking {
        assert(r.1 =~= seq![r.1[0], r.1[1]]);
        lemma_check_two(c, r.1[0], r.1[1]);
    } else if s.open != OpenBlock::Idle {
        assert(r.1 =~= seq![r.1[0]]);
        lemma_check_one(c, r.1[0]);
    } else {
        assert(r.1 =~= Seq::<EventV>::empty());
    }
}

proof fn lemma_switch(s: StreamState, c: FrameCheck, kind: OpenBlock, block: BlockStart<Seq<char>>)
    requires
        agrees(s, c),
        live(s),
        kind == kind_of(block),
    ensures
        agrees(switch_block(s, kind, block).0, check_frames(c, switch_block(s, kind, block).1)),
        live(switch_block(s, kind, block).0),
        switch_block(s, kind, block).0.open == kind || switch_block(s, kind, block).0.open
            == OpenBlock::Idle,
{
    reveal(switch_block);
    lemma_close(s, c);
    let cl = close_block(s);
    if can_open(cl.0) {
        let o = open_block(cl.0, kind, block);
        lemma_check_concat(c, cl.1, o.1);
        lemma_check_one(check_frames(c, cl.1), o.1[0]);
        assert(o.1 =~= seq![o.1[0]]);
    }
}

/// A delta frame for the open block keeps the frame reader where it agrees.
proof fn lemma_delta(s: StreamState, c: FrameCheck, d: BlockDelta<Seq<char>>)
    requires
        agrees(s, c),
        live(s),
        s.open != OpenBlock::Idle,
        delta_fits(s.open, d),
    ensures
        check_frames(c, seq![StreamEvent::ContentBlockDelta { index: current_index(s), delta: d }])
            == c,
{
    lemma_check_one(c, StreamEvent::ContentBlockDelta { index: current_index(s), delta: d });
}

proof fn lemma_then_delta(s: StreamState, c: FrameCheck, pre: Seq<EventV>, s1: StreamState, d: BlockDelta<Seq<char>>)
    requires
        agrees(s1, check_frames(c, pre)),
        live(s1),
        s1.open != OpenBlock::Idle,
        delta_fits(s1.open, d),
    ensures
        check_frames(c, pre + seq![StreamEvent::ContentBlockDelta { index: current_index(s1), delta: d }])
            == check_frames(c, pre),
{
    let e = StreamEvent::ContentBlockDelta { index: current_index(s1), delta: d };
    lemma_check_concat(c, pre, seq![e]);
    lemma_delta(s1, check_frames(c, pre), d);
}

proof fn lemma_thinking(s: StreamState, c: FrameCheck, frag: Seq<char>)
    requires
        agrees(s, c),
        live(s),
    ensures
        agrees(thinking_step(s, frag).0, check_frames(c, thinking_step(s, frag).1)),
        live(thinking_step(s, frag).0),
{
    reveal(thinking_step);
    if frag.len() == 0 {
    } else if s.open == OpenBlock::Thinking {
        lemma_delta(s, c, BlockDelta::Thinking(frag));
    } else {
        lemma_switch(s, c, OpenBlock::Thinking, BlockStart::Thinking);
        let o = switch_block(s, OpenBlock::Thinking, BlockStart::Thinking);
        if o.0.open == OpenBlock::Thinking {
            lemma_then_delta(s, c, o.1, o.0, BlockDelta::Thinking(frag));
        }
    }
}

proof fn lemma_tool_call(s: StreamState, c: FrameCheck, entry: crate::json::JsonV)
    requires
        agrees(s, c),
        live(s),
    ensures
        agrees(tool_call_step(s, entry).0, check_frames(c, tool_call_step(s, entry).1)),
        live(tool_call_step(s, entry).0),
{
    reveal(tool_call_step);
    let func = crate::stream::member_or_null(entry, "function"@);
    let id = crate::stream::or_empty(crate::json::text_of(entry.field("id"@)));
    let name = crate::stream::or_empty(crate::json::text_of(func.field("name"@)));
    let args = crate::stream::or_empty(crate::json::text_of(func.field("arguments"@)));
    let o = if id.len() > 0 {
        switch_block(s, OpenBlock::ToolCall, BlockStart::ToolUse { id, name })
    } else {
        (s, Seq::<EventV>::empty())
    };
    if id.len() > 0 {
        lemma_switch(s, c, OpenBlock::ToolCall, BlockStart::ToolUse { id, name });
    } else {
        lemma_check_empty(c);
    }
    if args.len() > 0 && o.0.open == OpenBlock::ToolCall {
        lemma_then_delta(s, c, o.1, o.0, BlockDelta::InputJson(args));
    }
}

proof fn lemma_tool_calls(s: StreamState, c: FrameCheck, entries: Seq<crate::json::JsonV>)
    requires
        agrees(s, c),
        live(s),
    ensures
        agrees(tool_calls_step(s, entries).0, check_frames(c, tool_calls_step(s, entries).1)),
        live(tool_calls_step(s, entries).0),
    decreases entries.len(),
{
    if entries.len() > 0 {
        lemma_tool_calls(s, c, entries.drop_last());
        let prev = tool_calls_step(s, entries.drop_last());
        lemma_tool_call(prev.0, check_frames(c, prev.1), entries.last());
        lemma_check_concat(c, prev.1, tool_call_step(prev.0, entries.last()).1);
    }
}

proof fn lemma_tool_result(s: StreamState, c: FrameCheck, d: crate::json::JsonV)
    requires
        agrees(s, c),
        live(s),
    ensures
        agrees(tool_result_step(s, d).0, check_frames(c, tool_result_step(s, d).1)),
        live(tool_result_step(s, d).0),
{
    reveal(tool_result_step);
    let id = crate::stream::or_empty(crate::json::text_of(d.field("tool_call_id"@)));
    if id.len() > 0 {
        let is_error = match crate::json::bool_of(d.field("is_error"@)) {
            Some(b) => b,
            None => false,
        };
        lemma_switch(s, c, OpenBlock::ToolResult, BlockStart::ToolResult { tool_use_id: id, is_error });
    } else {
        lemma_close(s, c);
    }
}

proof fn lemma_text(s: StreamState, c: FrameCheck, frag: Seq<char>)
    requires
        agrees(s, c),
        live(s),
    ensures
        agrees(text_step(s, frag).0, check_frames(c, text_step(s, frag).1)),
        live(text_step(s, frag).0),
{
    reveal(text_step);
    if s.open == OpenBlock::Text {
        lemma_delta(s, c, BlockDelta::Text(frag));
    } else {
        let clean = crate::sanitize::sanitized(frag);
        if clean.len() > 0 {
            lemma_switch(s, c, OpenBlock::Text, BlockStart::Text);
            let o = switch_block(s, OpenBlock::Text, BlockStart::Text);
            if o.0.open == OpenBlock::Text {
                lemma_then_delta(s, c, o.1, o.0, BlockDelta::Text(clean));
            }
        }
    }
}

proof fn lemma_content(s: StreamState, c: FrameCheck, content: Seq<char>)
    requires
        agrees(s, c),
        live(s),
    ensures
        agrees(content_step(s, content).0, check_frames(c, content_step(s, content).1)),
        live(content_step(s, content).0),
{
    reveal(content_step);
    if content.len() == 0 {
    } else if s.open == OpenBlock::ToolResult {
        lemma_delta(s, c, BlockDelta::Content(content));
    } else {
        lemma_text(s, c, content);
    }
}

proof fn lemma_delta_step(s: StreamState, c: FrameCheck, d: crate::json::JsonV)
    requires
        agrees(s, c),
        live(s),
    ensures
        agrees(delta_step(s, d).0, check_frames(c, delta_step(s, d).1)),
        live(delta_step(s, d).0),
{
    reveal(delta_step);
    let a = thinking_step(s, crate::stream::or_empty(crate::json::text_of(d.field("reasoning_content"@))));
    lemma_thinking(s, c, crate::stream::or_empty(crate::json::text_of(d.field("reasoning_content"@))));
    let ca = check_frames(c, a.1);
    let b = match crate::json::items_of(d.field("tool_calls"@)) {
        Some(entries) => tool_calls_step(a.0, entries),
        None => (a.0, Seq::<EventV>::empty()),
    };
    match crate::json::items_of(d.field("tool_calls"@)) {
        Some(entries) => lemma_tool_calls(a.0, ca, entries),
        None => {},
    }
    let cb = check_frames(ca, b.1);
    let cc = if crate::stream::starts_tool_result(d) {
        tool_result_step(b.0, d)
    } else {
        (b.0, Seq::<EventV>::empty())
    };
    if crate::stream::starts_tool_result(d) {
        lemma_tool_result(b.0, cb, d);
    }
    let ccc = check_frames(cb, cc.1);
    let e = content_step(cc.0, crate::stream::or_empty(crate::json::text_of(d.field("content"@))));
    lemma_content(cc.0, ccc, crate::stream::or_empty(crate::json::text_of(d.field("content"@))));
    lemma_check_concat(c, a.1, b.1);
    lemma_check_concat(c, a.1 + b.1, cc.1);
    lemma_check_concat(c, a.1 + b.1 + cc.1, e.1);
}

proof fn lemma_choices(s: StreamState, c: FrameCheck, choices: Seq<crate::json::JsonV>)
    requires
        agrees(s, c),
        live(s),
    ensures
        agrees(choices_step(s, choices).0, check_frames(c, choices_step(s, choices).1)),
        live(choices_step(s, choices).0),
    decreases choices.len(),
{
    if choices.len() > 0 {
        lemma_choices(s, c, choices.drop_last());
        let prev = choices_step(s, choices.drop_last());
        let ch = choices.last();
        reveal(choice_step);
        let s0 = match crate::json::text_of(ch.field("finish_reason"@)) {
            Some(f) => StreamState { finish_reason: Some(f), ..prev.0 },
            None => prev.0,
        };
        lemma_delta_step(s0, check_frames(c, prev.1), crate::stream::member_or_null(ch, "delta"@));
        lemma_check_concat(c, prev.1, choice_step(prev.0, ch).1);
    }
}

proof fn lemma_payload(s: StreamState, c: FrameCheck, p: Payload)
    requires
        agrees(s, c),
        s.started,
    ensures
        agrees(payload_step(s, p).0, check_frames(c, payload_step(s, p).1)),
        payload_step(s, p).0.started,
{
    if !s.finished {
        match p {
            Payload::Done => lemma_done(s, c),
            Payload::Document(j) => {
                reveal(document_step);
                let s0 = with_usage(s, j@);
                match crate::json::items_of(j@.field("choices"@)) {
                    Some(choices) => lemma_choices(s0, c, choices),
                    None => {},
                }
            },
            Payload::Malformed => {},
        }
    }
}

proof fn lemma_done(s: StreamState, c: FrameCheck)
    requires
        agrees(s, c),
        live(s),
    ensures
        agrees(done_step(s).0, check_frames(c, done_step(s).1)),
        done_step(s).0.started,
        done_step(s).0.finished,
{
    reveal(done_step);
    lemma_close(s, c);
    let cl = close_block(s);
    let r = done_step(s);
    let tail = r.1.subrange(cl.1.len() as int, r.1.len() as int);
    assert(r.1 =~= cl.1 + tail);
    assert(tail =~= seq![tail[0], tail[1]]);
    lemma_check_concat(c, cl.1, tail);
    lemma_check_two(check_frames(c, cl.1), tail[0], tail[1]);
}

proof fn lemma_run(s: StreamState, c: FrameCheck, payloads: Seq<Payload>)
    requires
        agrees(s, c),
        s.started,
    ensures
        agrees(run(s, payloads).0, check_frames(c, run(s, payloads).1)),
        run(s, payloads).0.started,
    decreases payloads.len(),
{
    if payloads.len() > 0 {
        lemma_run(s, c, payloads.drop_last());
        let prev = run(s, payloads.drop_last());
        lemma_payload(prev.0, check_frames(c, prev.1), payloads.last());
        lemma_check_concat(c, prev.1, payload_step(prev.0, payloads.last()).1);
    }
}

/// Every transcript of the translator obeys the framing rules of
/// `well_framed`, whatever the payloads: one `message_start` first, blocks
/// with contiguous indices that open and close in matching pairs, one
/// signature right before each thinking block's stop, and one `message_delta`
/// then one `message_stop` last.
pub proof fn lemma_transcript_well_framed(model: Seq<char>, msg_id: Seq<char>, payloads: Seq<Payload>)
    ensures
        well_framed(transcript(model, msg_id, payloads)),
{
    let s0 = initial_state(model, msg_id);
    let a = start_step(s0);
    lemma_check_one(FrameCheck::Fresh, a.1[0]);
    assert(a.1 =~= seq![a.1[0]]);
    let ca = check_frames(FrameCheck::Fresh, a.1);
    lemma_run(a.0, ca, payloads);
    let b = run(a.0, payloads);
    let cb = check_frames(ca, b.1);
    if !b.0.finished {
        lemma_done(b.0, cb);
    }
    let c = finish_step(b.0);
    lemma_check_concat(FrameCheck::Fresh, a.1, b.1);
    lemma_check_concat(FrameCheck::Fresh, a.1 + b.1, c.1);
}

/// The `partial_json` of the tool-use deltas for block `index`, concatenated.
pub open spec fn input_json_text(frames: Seq<EventV>, index: u64) -> Seq<char>
    decreases frames.len(),
{
    if frames.len() == 0 {
        Seq::empty()
    } else {
        let prev = input_json_text(frames.drop_last(), index);
        match frames.last() {
            StreamEvent::ContentBlockDelta { index: i, delta: BlockDelta::InputJson(p) } => if i
                == index {
                prev + p
            } else {
                prev
            },
            _ => prev,
        }
    }
}

/// The `function.arguments` string of a tool-call entry, or empty.
pub open spec fn entry_arguments(entry: crate::json::JsonV) -> Seq<char> {
    crate::stream::or_empty(
        crate::json::text_of(crate::stream::member_or_null(entry, "function"@).field("arguments"@)),
    )
}

pub open spec fn entry_id(entry: crate::json::JsonV) -> Seq<char> {
    crate::stream::or_empty(crate::json::text_of(entry.field("id"@)))
}

/// The arguments of the entries, concatenated in order.
pub open spec fn arguments_text(entries: Seq<crate::json::JsonV>) -> Seq<char>
    decreases entries.len(),
{
    if entries.len() == 0 {
        Seq::empty()
    } else {
        arguments_text(entries.drop_last()) + entry_arguments(entries.last())
    }
}

/// A tool-use delta for block `index`.
pub open spec fn is_argument_delta(e: EventV, index: u64) -> bool {
    match e {
        StreamEvent::ContentBlockDelta { index: i, delta: BlockDelta::InputJson(_) } => i == index,
        _ => false,
    }
}

/// Every frame is a tool-use delta for block `index`.
pub open spec fn only_arguments(frames: Seq<EventV>, index: u64) -> bool {
    forall|k: int| 0 <= k < frames.len() ==> is_argument_delta(#[trigger] frames[k], index)
}

proof fn lemma_input_json_concat(a: Seq<EventV>, b: Seq<EventV>, index: u64)
    ensures
        input_json_text(a + b, index) == input_json_text(a, index) + input_json_text(b, index),
    decreases b.len(),
{
    if b.len() == 0 {
        assert(a + b =~= a);
        assert(input_json_text(a, index) + Seq::empty() =~= input_json_text(a, index));
    } else {
        lemma_input_json_concat(a, b.drop_last(), index);
        assert((a + b).drop_last() =~= a + b.drop_last());
        assert((a + b).last() == b.last());
        match b.last() {
            StreamEvent::ContentBlockDelta { index: i, delta: BlockDelta::InputJson(p) } => {
                if i == index {
                    assert(input_json_text(a, index) + input_json_text(b.drop_last(), index) + p
                        =~= input_json_text(a, index) + (input_json_text(b.drop_last(), index) + p));
                }
            },
            _ => {},
        }
    }
}

proof fn lemma_input_json_of_one(e: EventV, index: u64)
    ensures
        input_json_text(seq![e], index) == match e {
            StreamEvent::ContentBlockDelta { index: i, delta: BlockDelta::InputJson(p) } => if i
                == index {
                p
            } else {
                Seq::empty()
            },
            _ => Seq::empty(),
        },
{
    let t = seq![e];
    assert(t.drop_last() =~= Seq::<EventV>::empty());
    assert(input_json_text(t.drop_last(), index) == Seq::<char>::empty());
    assert(t.last() == e);
    match e {
        StreamEvent::ContentBlockDelta { index: i, delta: BlockDelta::InputJson(p) } => {
            assert(Seq::<char>::empty() + p =~= p);
        },
        _ => {},
    }
}

/// While a tool call is open, entries without an id add exactly their argument
/// fragments, in order, as tool-use deltas of that block, which stays open.
pub proof fn lemma_tool_arguments_continue(s: StreamState, entries: Seq<crate::json::JsonV>)
    requires
        state_wf(s),
        s.open == OpenBlock::ToolCall,
        forall|k: int| 0 <= k < entries.len() ==> #[trigger] entry_id(entries[k]).len() == 0,
    ensures
        tool_calls_step(s, entries).0.open == OpenBlock::ToolCall,
        tool_calls_step(s, entries).0.next_index == s.next_index,
        only_arguments(tool_calls_step(s, entries).1, current_index(s)),
        input_json_text(tool_calls_step(s, entries).1, current_index(s)) == arguments_text(entries),
    decreases entries.len(),
{
    if entries.len() > 0 {
        let init = entries.drop_last();
        assert forall|k: int| 0 <= k < init.len() implies #[trigger] entry_id(init[k]).len() == 0 by {
            assert(init[k] == entries[k]);
        }
        lemma_tool_arguments_continue(s, init);
        let prev = tool_calls_step(s, init);
        let e = entries.last();
        assert(entry_id(entries[entries.len() - 1]).len() == 0);
        reveal(tool_call_step);
        let step = tool_call_step(prev.0, e);
        let args = entry_arguments(e);
        if args.len() > 0 {
            let d = StreamEvent::ContentBlockDelta {
                index: current_index(prev.0),
                delta: BlockDelta::InputJson(args),
            };
            assert(step.1 =~= seq![d]);
            lemma_input_json_of_one(d, current_index(s));
        } else {
            assert(step.1 =~= Seq::<EventV>::empty());
        }
        lemma_input_json_concat(prev.1, step.1, current_index(s));
        assert forall|k: int| 0 <= k < (prev.1 + step.1).len() implies is_argument_delta(
            #[trigger] (prev.1 + step.1)[k],
            current_index(s),
        ) by {
            if k < prev.1.len() {
                assert((prev.1 + step.1)[k] == prev.1[k]);
            } else {
                assert((prev.1 + step.1)[k] == step.1[k - prev.1.len()]);
            }
        }
    }
}

/// An entry with a non-empty id opens a tool-use block at the next index (while
/// indices are left), and its arguments are that block's first argument text.
pub proof fn lemma_tool_call_opens(s: StreamState, entry: crate::json::JsonV)
    requires
        state_wf(s),
        entry_id(entry).len() > 0,
        can_open(close_block(s).0),
    ensures
        tool_call_step(s, entry).0.open == OpenBlock::ToolCall,
        current_index(tool_call_step(s, entry).0) == close_block(s).0.next_index,
        input_json_text(tool_call_step(s, entry).1, current_index(tool_call_step(s, entry).0))
            == entry_arguments(entry),
{
    reveal(tool_call_step);
    reveal(switch_block);
    reveal(close_block);
    let idx = s.next_index;
    let cl = close_block(s);
    let block = BlockStart::ToolUse {
        id: entry_id(entry),
        name: crate::stream::or_empty(
            crate::json::text_of(crate::stream::member_or_null(entry, "function"@).field("name"@)),
        ),
    };
    let o = switch_block(s, OpenBlock::ToolCall, block);
    let start = StreamEvent::ContentBlockStart { index: idx, block };
    assert(o.1 == cl.1 + seq![start]);
    assert(input_json_text(cl.1, idx) =~= Seq::empty()) by {
        if s.open == OpenBlock::Thinking {
            assert(cl.1 =~= seq![cl.1[0], cl.1[1]]);
            assert(cl.1.drop_last() =~= seq![cl.1[0]]);
            lemma_input_json_of_one(cl.1[0], idx);
        } else if s.open != OpenBlock::Idle {
            assert(cl.1 =~= seq![cl.1[0]]);
            lemma_input_json_of_one(cl.1[0], idx);
        } else {
            assert(cl.1 =~= Seq::<EventV>::empty());
        }
    }
    lemma_input_json_of_one(start, idx);
    lemma_input_json_concat(cl.1, seq![start], idx);
    let args = entry_arguments(entry);
    if args.len() > 0 {
        let d = StreamEvent::ContentBlockDelta { index: idx, delta: BlockDelta::InputJson(args) };
        lemma_input_json_of_one(d, idx);
        lemma_input_json_concat(o.1, seq![d], idx);
        assert(Seq::<char>::empty() + Seq::<char>::empty() + args =~= args);
    } else {
        assert(Seq::<char>::empty() + Seq::<char>::empty() =~= args);
    }
}

} // verus!
