//! How text travels through both translators.
use vstd::prelude::*;
use crate::json::{items_of, text_of, JsonV};
use crate::request::{converted_message, converted_messages, message, or_text, request_document};
use crate::response::{jstr, obj, response_blocks};
use crate::events::{BlockDelta, BlockStart, EventV, StreamEvent};
use crate::sanitize::{
    first_tag, first_tag_from, is_clean, sanitized, starts_with_folded, tag_text, TAG_COUNT,
};
use crate::stream::{
    choice_step, choices_step, close_block, content_step, delta_step, document_step,
    finish_step, initial_state, member_or_null, open_block, payload_step, start_step,
    switch_block, text_step, thinking_step, with_usage, OpenBlock, Payload, StreamState,
};
use crate::stream_laws::{run, transcript};

verus! {

/// A message whose content is a plain string.
pub open spec fn is_text_message(m: JsonV) -> bool {
    text_of(m.field("content"@)) is Some
}

pub open spec fn message_text(m: JsonV) -> Seq<char> {
    text_of(m.field("content"@))->0
}

pub open spec fn message_role(m: JsonV) -> Seq<char> {
    or_text(text_of(m.field("role"@)), "user"@)
}

/// An upstream reply whose message carries `text` and nothing else.
pub open spec fn text_reply(text: Seq<char>) -> JsonV {
    obj(seq![("content"@, jstr(text))])
}

pub open spec fn text_block(text: Seq<char>) -> JsonV {
    obj(seq![("type"@, jstr("text"@)), ("text"@, jstr(text))])
}

proof fn lemma_text_messages_convert(ms: Seq<JsonV>)
    requires
        forall|i: int| 0 <= i < ms.len() ==> #[trigger] is_text_message(ms[i]),
    ensures
        converted_messages(ms).len() == ms.len(),
        forall|i: int|
            0 <= i < ms.len() ==> #[trigger] converted_messages(ms)[i] == message(
                message_role(ms[i]),
                jstr(message_text(ms[i])),
            ),
    decreases ms.len(),
{
    if ms.len() > 0 {
        let init = ms.drop_last();
        assert forall|i: int| 0 <= i < init.len() implies #[trigger] is_text_message(init[i]) by {
            assert(init[i] == ms[i]);
        }
        lemma_text_messages_convert(init);
        let last = ms.last();
        assert(is_text_message(ms[ms.len() - 1]));
        assert(converted_message(last) == seq![message(message_role(last), jstr(message_text(last)))]);
        assert forall|i: int| 0 <= i < ms.len() implies #[trigger] converted_messages(ms)[i] == message(
            message_role(ms[i]),
            jstr(message_text(ms[i])),
        ) by {
            if i < init.len() {
                assert(ms[i] == init[i]);
            }
        }
    }
}

/// A one-member object has that member and no other.
pub proof fn lemma_single_member(key: Seq<char>, v: JsonV, other: Seq<char>)
    ensures
        obj(seq![(key, v)]).field(other) == if other == key {
            Some(v)
        } else {
            None::<JsonV>
        },
{
    let ms = seq![(key, v)];
    assert(ms[0].0 == key);
    assert(ms.drop_first().len() == 0);
    assert(crate::json::lookup(ms.drop_first(), other) is None);
}

/// What a reply whose message carries only `text` becomes: one text block
/// holding that text, sanitized.
pub proof fn lemma_text_reply_blocks(text: Seq<char>, fallback_ids: Seq<Seq<char>>)
    ensures
        response_blocks(text_reply(text), fallback_ids) == seq![text_block(sanitized(text))],
{
    reveal_strlit("content");
    reveal_strlit("reasoning_content");
    reveal_strlit("tool_calls");
    reveal_strlit("role");
    reveal_strlit("tool_call_id");
    assert("content"@.len() != "reasoning_content"@.len());
    assert("content"@.len() != "tool_calls"@.len());
    assert("content"@.len() != "role"@.len());
    assert("content"@.len() != "tool_call_id"@.len());
    lemma_single_member("content"@, jstr(text), "reasoning_content"@);
    lemma_single_member("content"@, jstr(text), "tool_calls"@);
    lemma_single_member("content"@, jstr(text), "role"@);
    lemma_single_member("content"@, jstr(text), "tool_call_id"@);
    lemma_single_member("content"@, jstr(text), "content"@);
    assert(response_blocks(text_reply(text), fallback_ids) =~= seq![text_block(sanitized(text))]);
}

/// A request whose messages all carry plain text, and no system text, goes
/// upstream as one message per message, each with the same role and text; and
/// a reply that carries such a text comes back as one text block holding that
/// text, sanitized.
pub proof fn lemma_text_round_trip(body: JsonV, ms: Seq<JsonV>, k: int, fallback_ids: Seq<Seq<char>>)
    requires
        body.field("messages"@) == Some(JsonV::Array(ms)),
        body.field("system"@) is None,
        forall|i: int| 0 <= i < ms.len() ==> #[trigger] is_text_message(ms[i]),
        0 <= k < ms.len(),
    ensures
        ({
            let sent = items_of(request_document(body).field("messages"@))->0;
            &&& items_of(request_document(body).field("messages"@)) is Some
            &&& sent.len() == ms.len()
            &&& text_of(sent[k].field("content"@)) == Some(message_text(ms[k]))
            &&& text_of(sent[k].field("role"@)) == Some(message_role(ms[k]))
        }),
        response_blocks(text_reply(message_text(ms[k])), fallback_ids) == seq![
            text_block(sanitized(message_text(ms[k]))),
        ],
{
    reveal_strlit("model");
    reveal_strlit("messages");
    reveal_strlit("role");
    reveal_strlit("content");
    reveal_strlit("reasoning_content");
    reveal_strlit("tool_calls");
    reveal_strlit("tool_call_id");
    lemma_text_messages_convert(ms);
    let doc = request_document(body);
    let members = doc->Object_0;
    assert(members[0].0 == "model"@);
    assert(members[1].0 == "messages"@);
    assert("model"@ != "messages"@) by {
        assert("model"@.len() != "messages"@.len());
    }
    assert(members.drop_first()[0] == members[1]);
    assert(crate::request::system_messages(body.field("system"@)) =~= Seq::empty());
    assert(members[1].1 == JsonV::Array(Seq::empty() + converted_messages(ms)));
    assert(Seq::empty() + converted_messages(ms) =~= converted_messages(ms));
    let sent = converted_messages(ms);
    let m = sent[k];
    let mm = m->Object_0;
    assert(mm[0].0 == "role"@ && mm[1].0 == "content"@);
    assert("role"@ != "content"@) by {
        assert("role"@.len() != "content"@.len());
    }
    assert(mm.drop_first()[0] == mm[1]);
    assert(crate::json::lookup(mm.drop_first(), "content"@) == Some(mm[1].1));
    assert(m.field("content"@) == Some(jstr(message_text(ms[k]))));
    assert(m.field("role"@) == Some(jstr(message_role(ms[k]))));
    assert(crate::json::lookup(members.drop_first(), "messages"@) == Some(members[1].1));
    assert(doc.field("messages"@) == Some(JsonV::Array(sent)));
    lemma_text_reply_blocks(message_text(ms[k]), fallback_ids);
}

/// A streamed payload whose one choice carries the content fragment `t`.
pub open spec fn text_chunk(t: Seq<char>) -> JsonV {
    obj(seq![("choices"@, JsonV::Array(seq![obj(seq![("delta"@, obj(seq![("content"@, jstr(t))]))])]))])
}

pub open spec fn is_text_chunk(p: Payload, t: Seq<char>) -> bool {
    match p {
        Payload::Document(j) => j@ == text_chunk(t),
        _ => false,
    }
}

/// Fragments joined in order.
pub open spec fn joined(ts: Seq<Seq<char>>) -> Seq<char>
    decreases ts.len(),
{
    if ts.len() == 0 {
        Seq::empty()
    } else {
        joined(ts.drop_last()) + ts.last()
    }
}

/// The text of all text deltas, joined in order.
pub open spec fn streamed_text(frames: Seq<EventV>) -> Seq<char>
    decreases frames.len(),
{
    if frames.len() == 0 {
        Seq::empty()
    } else {
        match frames.last() {
            StreamEvent::ContentBlockDelta { delta: BlockDelta::Text(t), .. } => streamed_text(
                frames.drop_last(),
            ) + t,
            _ => streamed_text(frames.drop_last()),
        }
    }
}

/// The blocks that the frames open, in order.
pub open spec fn block_starts(frames: Seq<EventV>) -> Seq<BlockStart<Seq<char>>>
    decreases frames.len(),
{
    if frames.len() == 0 {
        Seq::empty()
    } else {
        match frames.last() {
            StreamEvent::ContentBlockStart { block, .. } => block_starts(frames.drop_last()).push(
                block,
            ),
            _ => block_starts(frames.drop_last()),
        }
    }
}

proof fn lemma_frames_concat(a: Seq<EventV>, b: Seq<EventV>)
    ensures
        streamed_text(a + b) == streamed_text(a) + streamed_text(b),
        block_starts(a + b) == block_starts(a) + block_starts(b),
    decreases b.len(),
{
    if b.len() == 0 {
        assert(a + b =~= a);
        assert(streamed_text(a) + Seq::empty() =~= streamed_text(a));
        assert(block_starts(a) + Seq::empty() =~= block_starts(a));
    } else {
        lemma_frames_concat(a, b.drop_last());
        assert((a + b).drop_last() =~= a + b.drop_last());
        assert((a + b).last() == b.last());
        match b.last() {
            StreamEvent::ContentBlockDelta { delta: BlockDelta::Text(t), .. } => {
                assert(streamed_text(a) + streamed_text(b.drop_last()) + t =~= streamed_text(a) + (
                streamed_text(b.drop_last()) + t));
            },
            StreamEvent::ContentBlockStart { block, .. } => {
                assert((block_starts(a) + block_starts(b.drop_last())).push(block) =~= block_starts(a)
                    + block_starts(b.drop_last()).push(block));
            },
            _ => {},
        }
    }
}

proof fn lemma_frames_one(e: EventV)
    ensures
        streamed_text(seq![e]) == match e {
            StreamEvent::ContentBlockDelta { delta: BlockDelta::Text(t), .. } => t,
            _ => Seq::empty(),
        },
        block_starts(seq![e]) == match e {
            StreamEvent::ContentBlockStart { block, .. } => seq![block],
            _ => Seq::empty(),
        },
{
    let t = seq![e];
    assert(t.drop_last() =~= Seq::<EventV>::empty());
    assert(streamed_text(t.drop_last()) == Seq::<char>::empty());
    assert(block_starts(t.drop_last()) == Seq::<BlockStart<Seq<char>>>::empty());
    assert(t.last() == e);
    match e {
        StreamEvent::ContentBlockDelta { delta: BlockDelta::Text(x), .. } => {
            assert(Seq::<char>::empty() + x =~= x);
        },
        StreamEvent::ContentBlockStart { block, .. } => {
            assert(Seq::<BlockStart<Seq<char>>>::empty().push(block) =~= seq![block]);
        },
        _ => {},
    }
}

/// A text chunk is read as its content fragment alone.
proof fn lemma_text_chunk_step(s: StreamState, t: Seq<char>)
    ensures
        document_step(s, text_chunk(t)) == content_step(s, t),
{
    reveal(document_step);
    reveal(choice_step);
    reveal(delta_step);
    reveal(thinking_step);
    reveal_strlit("choices");
    reveal_strlit("usage");
    reveal_strlit("delta");
    reveal_strlit("finish_reason");
    reveal_strlit("content");
    reveal_strlit("reasoning_content");
    reveal_strlit("tool_calls");
    reveal_strlit("role");
    reveal_strlit("tool_call_id");
    let d = obj(seq![("content"@, jstr(t))]);
    let c = obj(seq![("delta"@, d)]);
    let doc = text_chunk(t);
    assert("choices"@.len() != "usage"@.len());
    assert("delta"@.len() != "finish_reason"@.len());
    assert("content"@.len() != "reasoning_content"@.len());
    assert("content"@.len() != "tool_calls"@.len());
    assert("content"@.len() != "role"@.len());
    assert("content"@.len() != "tool_call_id"@.len());
    lemma_single_member("choices"@, JsonV::Array(seq![c]), "usage"@);
    lemma_single_member("choices"@, JsonV::Array(seq![c]), "choices"@);
    lemma_single_member("delta"@, d, "finish_reason"@);
    lemma_single_member("delta"@, d, "delta"@);
    lemma_single_member("content"@, jstr(t), "reasoning_content"@);
    lemma_single_member("content"@, jstr(t), "tool_calls"@);
    lemma_single_member("content"@, jstr(t), "role"@);
    lemma_single_member("content"@, jstr(t), "tool_call_id"@);
    lemma_single_member("content"@, jstr(t), "content"@);
    assert(with_usage(s, doc) == s);
    let cs = seq![c];
    assert(cs.drop_last() =~= Seq::<JsonV>::empty());
    assert(member_or_null(c, "delta"@) == d);
    let e = content_step(s, t);
    assert(thinking_step(s, Seq::empty()) == (s, Seq::<EventV>::empty()));
    assert(delta_step(s, d).0 == e.0);
    assert(delta_step(s, d).1 =~= e.1);
    assert(choice_step(s, c) == delta_step(s, d));
    assert(choices_step(s, cs.drop_last()) == (s, Seq::<EventV>::empty()));
    assert(cs.last() == c);
    assert(choices_step(s, cs).0 == e.0);
    assert(choices_step(s, cs).1 =~= e.1);
}

proof fn lemma_starts_with_extends(s: Seq<char>, more: Seq<char>, t: Seq<char>)
    requires
        starts_with_folded(s, t),
    ensures
        starts_with_folded(s + more, t),
{
    assert forall|i: int| 0 <= i < t.len() implies #[trigger] crate::sanitize::fold((s + more)[i])
        == crate::sanitize::fold(t[i]) by {
        assert((s + more)[i] == s[i]);
    }
}

proof fn lemma_first_tag_extends(s: Seq<char>, more: Seq<char>, k: int)
    requires
        first_tag_from(s, k) is Some,
    ensures
        first_tag_from(s + more, k) is Some,
    decreases TAG_COUNT - k,
{
    if 0 <= k < TAG_COUNT {
        if starts_with_folded(s, tag_text(k)) {
            lemma_starts_with_extends(s, more, tag_text(k));
        } else if !starts_with_folded(s + more, tag_text(k)) {
            lemma_first_tag_extends(s, more, k + 1);
        }
    }
}

/// The nonempty start of a clean text is clean.
proof fn lemma_clean_prefix(a: Seq<char>, b: Seq<char>)
    requires
        a.len() > 0,
        is_clean(a + b),
    ensures
        is_clean(a),
        sanitized(a) == a,
{
    assert((a + b)[0] == a[0]);
    if first_tag(a) is Some {
        lemma_first_tag_extends(a, b, 0);
    }
}

/// A text stream after its first fragment: one text block, open at index 0.
pub open spec fn text_open(s: StreamState) -> bool {
    s.open == OpenBlock::Text && s.next_index == 1 && s.started && !s.finished
}

proof fn lemma_text_run(s0: StreamState, ts: Seq<Seq<char>>, payloads: Seq<Payload>, n: int)
    requires
        s0.open == OpenBlock::Idle,
        s0.next_index == 0,
        s0.started,
        !s0.finished,
        ts.len() == payloads.len(),
        1 <= n <= ts.len(),
        forall|i: int| 0 <= i < payloads.len() ==> #[trigger] is_text_chunk(payloads[i], ts[i]),
        ts[0].len() > 0,
        sanitized(ts[0]) == ts[0],
    ensures
        text_open(run(s0, payloads.take(n)).0),
        block_starts(run(s0, payloads.take(n)).1) == seq![BlockStart::<Seq<char>>::Text],
        streamed_text(run(s0, payloads.take(n)).1) == joined(ts.take(n)),
    decreases n,
{
    let ps = payloads.take(n);
    assert(ps.drop_last() =~= payloads.take(n - 1));
    assert(ps.last() == payloads[n - 1]);
    assert(ts.take(n).drop_last() =~= ts.take(n - 1));
    assert(ts.take(n).last() == ts[n - 1]);
    assert(is_text_chunk(payloads[n - 1], ts[n - 1]));
    let j = payloads[n - 1]->Document_0;
    reveal(content_step);
    reveal(text_step);
    if n == 1 {
        assert(payloads.take(0) =~= Seq::<Payload>::empty());
        assert(ts.take(0) =~= Seq::<Seq<char>>::empty());
        let r0 = run(s0, payloads.take(0));
        assert(r0 == (s0, Seq::<EventV>::empty()));
        lemma_text_chunk_step(s0, ts[0]);
        reveal(switch_block);
        reveal(close_block);
        let step = payload_step(s0, payloads[0]);
        assert(step == content_step(s0, ts[0]));
        let o = switch_block(s0, OpenBlock::Text, BlockStart::Text);
        let start = StreamEvent::ContentBlockStart { index: 0, block: BlockStart::Text };
        let delta = StreamEvent::ContentBlockDelta { index: 0, delta: BlockDelta::Text(ts[0]) };
        assert(close_block(s0).1 =~= Seq::<EventV>::empty());
        assert(o.1 =~= seq![start]);
        assert(step.1 =~= seq![start, delta]);
        assert(seq![start, delta] =~= seq![start] + seq![delta]);
        lemma_frames_concat(seq![start], seq![delta]);
        lemma_frames_one(start);
        lemma_frames_one(delta);
        assert(Seq::<EventV>::empty() + step.1 =~= step.1);
        assert(Seq::<BlockStart<Seq<char>>>::empty() + seq![BlockStart::<Seq<char>>::Text] =~= seq![BlockStart::<Seq<char>>::Text]);
        assert(Seq::<char>::empty() + ts[0] =~= ts[0]);
        assert(joined(ts.take(1)) == joined(ts.take(0)) + ts[0]);
    } else {
        lemma_text_run(s0, ts, payloads, n - 1);
        let prev = run(s0, payloads.take(n - 1));
        lemma_text_chunk_step(prev.0, ts[n - 1]);
        let step = payload_step(prev.0, payloads[n - 1]);
        assert(step == content_step(prev.0, ts[n - 1]));
        lemma_frames_concat(prev.1, step.1);
        if ts[n - 1].len() > 0 {
            let delta = StreamEvent::ContentBlockDelta { index: 0, delta: BlockDelta::Text(ts[n - 1]) };
            assert(step.1 =~= seq![delta]);
            lemma_frames_one(delta);
            assert(seq![BlockStart::<Seq<char>>::Text] + Seq::empty() =~= seq![BlockStart::<Seq<char>>::Text]);
        } else {
            assert(step.1 =~= Seq::<EventV>::empty());
            assert(streamed_text(step.1) == Seq::<char>::empty());
            assert(block_starts(step.1) == Seq::<BlockStart<Seq<char>>>::empty());
            assert(seq![BlockStart::<Seq<char>>::Text] + Seq::empty() =~= seq![BlockStart::<Seq<char>>::Text]);
            assert(joined(ts.take(n - 1)) + Seq::<char>::empty() =~= joined(ts.take(n - 1)));
            assert(ts[n - 1] =~= Seq::<char>::empty());
            assert(joined(ts.take(n - 1)) + ts[n - 1] =~= joined(ts.take(n - 1)));
        }
    }
}

/// A stream of text fragments, the first one non-empty, whose joined text is
/// clean (it starts with neither whitespace nor a marker): the stream opens one
/// text block whose deltas join to that text, and the non-streaming translator,
/// given a reply that carries the joined text, returns one text block with that
/// same text.
pub proof fn lemma_text_stream_matches_document(
    model: Seq<char>,
    msg_id: Seq<char>,
    ts: Seq<Seq<char>>,
    payloads: Seq<Payload>,
    fallback_ids: Seq<Seq<char>>,
)
    requires
        ts.len() == payloads.len(),
        ts.len() >= 1,
        forall|i: int| 0 <= i < payloads.len() ==> #[trigger] is_text_chunk(payloads[i], ts[i]),
        ts[0].len() > 0,
        is_clean(joined(ts)),
    ensures
        block_starts(transcript(model, msg_id, payloads)) == seq![BlockStart::<Seq<char>>::Text],
        streamed_text(transcript(model, msg_id, payloads)) == joined(ts),
        response_blocks(text_reply(joined(ts)), fallback_ids) == seq![text_block(joined(ts))],
{
    assert(is_clean(joined(ts)) ==> sanitized(joined(ts)) == joined(ts));
    lemma_text_reply_blocks(joined(ts), fallback_ids);
    let rest = joined(ts) .subrange(ts[0].len() as int, joined(ts).len() as int);
    lemma_joined_starts(ts);
    assert(joined(ts) =~= ts[0] + rest);
    lemma_clean_prefix(ts[0], rest);
    let a = start_step(initial_state(model, msg_id));
    assert(payloads.take(payloads.len() as int) =~= payloads);
    assert(ts.take(ts.len() as int) =~= ts);
    lemma_text_run(a.0, ts, payloads, payloads.len() as int);
    let b = run(a.0, payloads);
    reveal(crate::stream::done_step);
    reveal(close_block);
    let c = finish_step(b.0);
    let stop = StreamEvent::ContentBlockStop { index: 0 };
    let md = StreamEvent::MessageDelta {
        stop_reason: crate::stream::final_stop_reason(b.0),
        output_tokens: b.0.output_tokens,
    };
    let ms = StreamEvent::MessageStop;
    assert(c.1 =~= seq![stop] + seq![md] + seq![ms]);
    lemma_frames_one(stop);
    lemma_frames_one(md);
    lemma_frames_one(ms);
    lemma_frames_concat(seq![stop], seq![md]);
    lemma_frames_concat(seq![stop] + seq![md], seq![ms]);
    lemma_frames_one(a.1[0]);
    assert(a.1 =~= seq![a.1[0]]);
    lemma_frames_concat(a.1, b.1);
    lemma_frames_concat(a.1 + b.1, c.1);
    assert(Seq::<char>::empty() + joined(ts) + Seq::<char>::empty() =~= joined(ts));
    assert(Seq::<BlockStart<Seq<char>>>::empty() + seq![BlockStart::<Seq<char>>::Text] + Seq::<BlockStart<Seq<char>>>::empty() =~= seq![BlockStart::<Seq<char>>::Text]);
}

proof fn lemma_joined_starts(ts: Seq<Seq<char>>)
    requires
        ts.len() >= 1,
    ensures
        joined(ts).len() >= ts[0].len(),
        joined(ts).subrange(0, ts[0].len() as int) == ts[0],
    decreases ts.len(),
{
    if ts.len() == 1 {
        assert(ts.drop_last() =~= Seq::<Seq<char>>::empty());
        assert(joined(ts) =~= ts[0]);
    } else {
        lemma_joined_starts(ts.drop_last());
        assert(ts.drop_last()[0] == ts[0]);
        assert(joined(ts).subrange(0, ts[0].len() as int) =~= joined(ts.drop_last()).subrange(0, ts[0].len() as int));
    }
}

} // verus!
