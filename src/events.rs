//! The frames of a streamed dialect-M response and their server-sent-event text.
use vstd::prelude::*;
use crate::json::{decimal, decimal_text, json_quoted, quote, str_eq};

verus! {

/// The kind of block that a `content_block_start` frame opens.
#[derive(Debug, PartialEq)]
pub enum BlockStart<S> {
    Text,
    Thinking,
    ToolUse { id: S, name: S },
    ToolResult { tool_use_id: S, is_error: bool },
}

/// The payload of a `content_block_delta` frame.
#[derive(Debug, PartialEq)]
pub enum BlockDelta<S> {
    Text(S),
    InputJson(S),
    Thinking(S),
    Signature(S),
    Content(S),
}

/// One frame of a streamed dialect-M response.
#[derive(Debug, PartialEq)]
pub enum StreamEvent<S> {
    MessageStart { id: S, model: S },
    ContentBlockStart { index: u64, block: BlockStart<S> },
    ContentBlockDelta { index: u64, delta: BlockDelta<S> },
    ContentBlockStop { index: u64 },
    MessageDelta { stop_reason: S, output_tokens: u64 },
    MessageStop,
}

pub type Event = StreamEvent<String>;

/// A frame as the laws speak of it: strings as character sequences.
pub type EventV = StreamEvent<Seq<char>>;

impl View for BlockStart<String> {
    type V = BlockStart<Seq<char>>;

    open spec fn view(&self) -> BlockStart<Seq<char>> {
        match self {
            BlockStart::Text => BlockStart::Text,
            BlockStart::Thinking => BlockStart::Thinking,
            BlockStart::ToolUse { id, name } => BlockStart::ToolUse { id: id@, name: name@ },
            BlockStart::ToolResult { tool_use_id, is_error } => BlockStart::ToolResult {
                tool_use_id: tool_use_id@,
                is_error: *is_error,
            },
        }
    }
}

impl View for BlockDelta<String> {
    type V = BlockDelta<Seq<char>>;

    open spec fn view(&self) -> BlockDelta<Seq<char>> {
        match self {
            BlockDelta::Text(s) => BlockDelta::Text(s@),
            BlockDelta::InputJson(s) => BlockDelta::InputJson(s@),
            BlockDelta::Thinking(s) => BlockDelta::Thinking(s@),
            BlockDelta::Signature(s) => BlockDelta::Signature(s@),
            BlockDelta::Content(s) => BlockDelta::Content(s@),
        }
    }
}

impl View for StreamEvent<String> {
    type V = EventV;

    open spec fn view(&self) -> EventV {
        match self {
            StreamEvent::MessageStart { id, model } => StreamEvent::MessageStart {
                id: id@,
                model: model@,
            },
            StreamEvent::ContentBlockStart { index, block } => StreamEvent::ContentBlockStart {
                index: *index,
                block: block@,
            },
            StreamEvent::ContentBlockDelta { index, delta } => StreamEvent::ContentBlockDelta {
                index: *index,
                delta: delta@,
            },
            StreamEvent::ContentBlockStop { index } => StreamEvent::ContentBlockStop {
                index: *index,
            },
            StreamEvent::MessageDelta { stop_reason, output_tokens } => StreamEvent::MessageDelta {
                stop_reason: stop_reason@,
                output_tokens: *output_tokens,
            },
            StreamEvent::MessageStop => StreamEvent::MessageStop,
        }
    }
}

pub open spec fn views(events: Seq<Event>) -> Seq<EventV> {
    events.map_values(|e: Event| e@)
}

/// The stop reason of dialect M for a finish reason of dialect C.
pub open spec fn stop_reason_for(finish_reason: Seq<char>) -> Seq<char> {
    if finish_reason == "stop"@ {
        "end_turn"@
    } else if finish_reason == "tool_calls"@ {
        "tool_use"@
    } else if finish_reason == "length"@ {
        "max_tokens"@
    } else if finish_reason == "content_filter"@ {
        "end_turn"@
    } else {
        "end_turn"@
    }
}

/// Maps a finish reason of dialect C to the stop reason of dialect M:
/// `stop` and `content_filter` to `end_turn`, `tool_calls` to `tool_use`,
/// `length` to `max_tokens`, anything else to `end_turn`.
pub fn map_stop_reason(finish_reason: &str) -> (r: &'static str)
    ensures
        r@ == stop_reason_for(finish_reason@),
{
    if str_eq(finish_reason, "stop") {
        "end_turn"
    } else if str_eq(finish_reason, "tool_calls") {
        "tool_use"
    } else if str_eq(finish_reason, "length") {
        "max_tokens"
    } else if str_eq(finish_reason, "content_filter") {
        "end_turn"
    } else {
        "end_turn"
    }
}

pub open spec fn bool_text(b: bool) -> Seq<char> {
    if b {
        "true"@
    } else {
        "false"@
    }
}

/// The frame name that follows `event: `.
pub open spec fn event_name(e: EventV) -> Seq<char> {
    match e {
        StreamEvent::MessageStart { .. } => "message_start"@,
        StreamEvent::ContentBlockStart { .. } => "content_block_start"@,
        StreamEvent::ContentBlockDelta { .. } => "content_block_delta"@,
        StreamEvent::ContentBlockStop { .. } => "content_block_stop"@,
        StreamEvent::MessageDelta { .. } => "message_delta"@,
        StreamEvent::MessageStop => "message_stop"@,
    }
}

pub open spec fn block_json(b: BlockStart<Seq<char>>) -> Seq<char> {
    match b {
        BlockStart::Text => "{\"type\":\"text\",\"text\":\"\"}"@,
        BlockStart::Thinking => "{\"type\":\"thinking\",\"thinking\":\"\"}"@,
        BlockStart::ToolUse { id, name } => "{\"type\":\"tool_use\",\"id\":"@ + json_quoted(id)
            + ",\"name\":"@ + json_quoted(name) + ",\"input\":{}}"@,
        BlockStart::ToolResult { tool_use_id, is_error } => "{\"type\":\"tool_result\",\"tool_use_id\":"@
            + json_quoted(tool_use_id) + ",\"content\":\"\",\"is_error\":"@ + bool_text(is_error)
            + "}"@,
    }
}

pub open spec fn delta_json(d: BlockDelta<Seq<char>>) -> Seq<char> {
    match d {
        BlockDelta::Text(s) => "{\"type\":\"text_delta\",\"text\":"@ + json_quoted(s) + "}"@,
        BlockDelta::InputJson(s) => "{\"type\":\"input_json_delta\",\"partial_json\":"@
            + json_quoted(s) + "}"@,
        BlockDelta::Thinking(s) => "{\"type\":\"thinking_delta\",\"thinking\":"@ + json_quoted(s)
            + "}"@,
        BlockDelta::Signature(s) => "{\"type\":\"signature_delta\",\"signature\":"@
            + json_quoted(s) + "}"@,
        BlockDelta::Content(s) => "{\"type\":\"content_delta\",\"partial_json\":"@
            + json_quoted(s) + "}"@,
    }
}

/// The compact JSON document that follows `data: `.
pub open spec fn event_json(e: EventV) -> Seq<char> {
    match e {
        StreamEvent::MessageStart { id, model } => "{\"type\":\"message_start\",\"message\":{\"id\":"@
            + json_quoted(id) + ",\"type\":\"message\",\"role\":\"assistant\",\"model\":"@
            + json_quoted(model)
            + ",\"content\":[],\"stop_reason\":null,\"stop_sequence\":null,\"usage\":{\"input_tokens\":0,\"output_tokens\":0}}}"@,
        StreamEvent::ContentBlockStart { index, block } => "{\"type\":\"content_block_start\",\"index\":"@
            + decimal(index as nat) + ",\"content_block\":"@ + block_json(block) + "}"@,
        StreamEvent::ContentBlockDelta { index, delta } => "{\"type\":\"content_block_delta\",\"index\":"@
            + decimal(index as nat) + ",\"delta\":"@ + delta_json(delta) + "}"@,
        StreamEvent::ContentBlockStop { index } => "{\"type\":\"content_block_stop\",\"index\":"@
            + decimal(index as nat) + "}"@,
        StreamEvent::MessageDelta { stop_reason, output_tokens } => "{\"type\":\"message_delta\",\"delta\":{\"stop_reason\":"@
            + json_quoted(stop_reason) + ",\"stop_sequence\":null},\"usage\":{\"output_tokens\":"@
            + decimal(output_tokens as nat) + "}}"@,
        StreamEvent::MessageStop => "{\"type\":\"message_stop\"}"@,
    }
}

/// A frame as server-sent-event text: `event: <name>\ndata: <json>\n\n`.
pub open spec fn frame_text(e: EventV) -> Seq<char> {
    "event: "@ + event_name(e) + "\ndata: "@ + event_json(e) + "\n\n"@
}

fn cat(a: String, b: &str) -> (r: String)
    ensures
        r@ == a@ + b@,
{
    a.concat(b)
}

fn lit(s: &str) -> (r: String)
    ensures
        r@ == s@,
{
    String::from_str(s)
}

fn block_json_text(b: &BlockStart<String>) -> (r: String)
    ensures
        r@ == block_json(b@),
{
    match b {
        BlockStart::Text => lit("{\"type\":\"text\",\"text\":\"\"}"),
        BlockStart::Thinking => lit("{\"type\":\"thinking\",\"thinking\":\"\"}"),
        BlockStart::ToolUse { id, name } => {
            let s = cat(lit("{\"type\":\"tool_use\",\"id\":"), quote(id.as_str()).as_str());
            let s = cat(s, ",\"name\":");
            let s = cat(s, quote(name.as_str()).as_str());
            cat(s, ",\"input\":{}}")
        },
        BlockStart::ToolResult { tool_use_id, is_error } => {
            let s = cat(
                lit("{\"type\":\"tool_result\",\"tool_use_id\":"),
                quote(tool_use_id.as_str()).as_str(),
            );
            let s = cat(s, ",\"content\":\"\",\"is_error\":");
            let s = cat(s, if *is_error { "true" } else { "false" });
            cat(s, "}")
        },
    }
}

fn delta_json_text(d: &BlockDelta<String>) -> (r: String)
    ensures
        r@ == delta_json(d@),
{
    let (head, body) = match d {
        BlockDelta::Text(s) => ("{\"type\":\"text_delta\",\"text\":", s),
        BlockDelta::InputJson(s) => ("{\"type\":\"input_json_delta\",\"partial_json\":", s),
        BlockDelta::Thinking(s) => ("{\"type\":\"thinking_delta\",\"thinking\":", s),
        BlockDelta::Signature(s) => ("{\"type\":\"signature_delta\",\"signature\":", s),
        BlockDelta::Content(s) => ("{\"type\":\"content_delta\",\"partial_json\":", s),
    };
    let s = cat(lit(head), quote(body.as_str()).as_str());
    cat(s, "}")
}

fn event_json_text(e: &Event) -> (r: String)
    ensures
        r@ == event_json(e@),
{
    match e {
        StreamEvent::MessageStart { id, model } => {
            let s = cat(
                lit("{\"type\":\"message_start\",\"message\":{\"id\":"),
                quote(id.as_str()).as_str(),
            );
            let s = cat(s, ",\"type\":\"message\",\"role\":\"assistant\",\"model\":");
            let s = cat(s, quote(model.as_str()).as_str());
            cat(
                s,
                ",\"content\":[],\"stop_reason\":null,\"stop_sequence\":null,\"usage\":{\"input_tokens\":0,\"output_tokens\":0}}}",
            )
        },
        StreamEvent::ContentBlockStart { index, block } => {
            let s = cat(
                lit("{\"type\":\"content_block_start\",\"index\":"),
                decimal_text(*index).as_str(),
            );
            let s = cat(s, ",\"content_block\":");
            let s = cat(s, block_json_text(block).as_str());
            cat(s, "}")
        },
        StreamEvent::ContentBlockDelta { index, delta } => {
            let s = cat(
                lit("{\"type\":\"content_block_delta\",\"index\":"),
                decimal_text(*index).as_str(),
            );
            let s = cat(s, ",\"delta\":");
            let s = cat(s, delta_json_text(delta).as_str());
            cat(s, "}")
        },
        StreamEvent::ContentBlockStop { index } => {
            let s = cat(
                lit("{\"type\":\"content_block_stop\",\"index\":"),
                decimal_text(*index).as_str(),
            );
            cat(s, "}")
        },
        StreamEvent::MessageDelta { stop_reason, output_tokens } => {
            let s = cat(
                lit("{\"type\":\"message_delta\",\"delta\":{\"stop_reason\":"),
                quote(stop_reason.as_str()).as_str(),
            );
            let s = cat(s, ",\"stop_sequence\":null},\"usage\":{\"output_tokens\":");
            let s = cat(s, decimal_text(*output_tokens).as_str());
            cat(s, "}}")
        },
        StreamEvent::MessageStop => lit("{\"type\":\"message_stop\"}"),
    }
}

fn event_name_text(e: &Event) -> (r: &'static str)
    ensures
        r@ == event_name(e@),
{
    match e {
        StreamEvent::MessageStart { .. } => "message_start",
        StreamEvent::ContentBlockStart { .. } => "content_block_start",
        StreamEvent::ContentBlockDelta { .. } => "content_block_delta",
        StreamEvent::ContentBlockStop { .. } => "content_block_stop",
        StreamEvent::MessageDelta { .. } => "message_delta",
        StreamEvent::MessageStop => "message_stop",
    }
}

/// Writes a frame as server-sent-event text.
pub fn format_sse(e: &Event) -> (r: String)
    ensures
        r@ == frame_text(e@),
{
    let s = cat(lit("event: "), event_name_text(e));
    let s = cat(s, "\ndata: ");
    let s = cat(s, event_json_text(e).as_str());
    cat(s, "\n\n")
}

/// Writes each frame as server-sent-event text, in order.
pub fn format_all(events: &Vec<Event>) -> (r: Vec<String>)
    ensures
        r@.len() == events@.len(),
        forall|i: int| 0 <= i < r@.len() ==> #[trigger] r@[i]@ == frame_text(events@[i]@),
{
    let mut out: Vec<String> = Vec::new();
    let mut i: usize = 0;
    while i < events.len()
        invariant
            i <= events@.len(),
            out@.len() == i,
            forall|k: int| 0 <= k < i ==> #[trigger] out@[k]@ == frame_text(events@[k]@),
        decreases events@.len() - i,
    {
        out.push(format_sse(&events[i]));
        i = i + 1;
    }
    out
}

} // verus!
