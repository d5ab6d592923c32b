use base64::engine::general_purpose::STANDARD;
use base64::Engine;
use proxy_api::events::{format_sse, BlockDelta, BlockStart, Event, StreamEvent};
use proxy_api::json::{Json, Number};
use proxy_api::stream::{Payload, StreamTransformer};
use sha2::{Digest, Sha256};

fn to_json(v: serde_json::Value) -> Json {
    match v {
        serde_json::Value::Null => Json::Null,
        serde_json::Value::Bool(b) => Json::Bool(b),
        serde_json::Value::Number(n) => {
            if let Some(u) = n.as_u64() {
                Json::Num(Number::PosInt(u))
            } else if let Some(i) = n.as_i64() {
                Json::Num(Number::NegInt(i))
            } else {
                Json::Num(Number::Float(n.to_string()))
            }
        }
        serde_json::Value::String(s) => Json::Str(s),
        serde_json::Value::Array(a) => Json::Array(a.into_iter().map(to_json).collect()),
        serde_json::Value::Object(m) => {
            Json::Object(m.into_iter().map(|(k, v)| (k, to_json(v))).collect())
        }
    }
}

fn payload(text: &str) -> Payload {
    let doc = serde_json::from_str::<serde_json::Value>(text).ok().map(to_json);
    Payload::classify(text, doc)
}

fn run(payloads: &[&str]) -> Vec<Event> {
    let mut t = StreamTransformer::with_message_id("m", "msg_0123");
    let mut out = vec![t.start_frame()];
    for p in payloads {
        out.extend(t.process_payload(&payload(p)));
    }
    out.extend(t.finish_frames());
    out
}

fn s(x: &str) -> String {
    x.to_string()
}

fn start() -> Event {
    StreamEvent::MessageStart { id: s("msg_0123"), model: s("m") }
}

fn ending(reason: &str, tokens: u64) -> Vec<Event> {
    vec![
        StreamEvent::MessageDelta { stop_reason: s(reason), output_tokens: tokens },
        StreamEvent::MessageStop,
    ]
}

fn signature(text: &str) -> String {
    STANDARD.encode(Sha256::digest(text.as_bytes()))
}

#[test]
fn empty_stream() {
    let mut expected = vec![start()];
    expected.extend(ending("end_turn", 0));
    assert_eq!(run(&["[DONE]"]), expected);
}

#[test]
fn empty_stream_frames_as_text() {
    let mut t = StreamTransformer::with_message_id("m", "msg_0123");
    assert_eq!(
        t.start_event(),
        "event: message_start\ndata: {\"type\":\"message_start\",\"message\":{\"id\":\"msg_0123\",\"type\":\"message\",\"role\":\"assistant\",\"model\":\"m\",\"content\":[],\"stop_reason\":null,\"stop_sequence\":null,\"usage\":{\"input_tokens\":0,\"output_tokens\":0}}}\n\n"
    );
    let frames = t.process_chunk(&payload("[DONE]"));
    assert_eq!(
        frames,
        vec![
            s("event: message_delta\ndata: {\"type\":\"message_delta\",\"delta\":{\"stop_reason\":\"end_turn\",\"stop_sequence\":null},\"usage\":{\"output_tokens\":0}}\n\n"),
            s("event: message_stop\ndata: {\"type\":\"message_stop\"}\n\n"),
        ]
    );
    assert!(t.finish().is_empty());
}

#[test]
fn text_only_stream() {
    let got = run(&[
        r#"{"choices":[{"delta":{"content":"Hel"}}]}"#,
        r#"{"choices":[{"delta":{"content":"lo"}}]}"#,
        r#"{"choices":[{"delta":{},"finish_reason":"stop"}]}"#,
        "[DONE]",
    ]);
    let mut expected = vec![
        start(),
        StreamEvent::ContentBlockStart { index: 0, block: BlockStart::Text },
        StreamEvent::ContentBlockDelta { index: 0, delta: BlockDelta::Text(s("Hel")) },
        StreamEvent::ContentBlockDelta { index: 0, delta: BlockDelta::Text(s("lo")) },
        StreamEvent::ContentBlockStop { index: 0 },
    ];
    expected.extend(ending("end_turn", 0));
    assert_eq!(got, expected);
}

#[test]
fn text_frames_as_text() {
    let e = StreamEvent::ContentBlockDelta { index: 0, delta: BlockDelta::Text(s("Hel")) };
    assert_eq!(
        format_sse(&e),
        "event: content_block_delta\ndata: {\"type\":\"content_block_delta\",\"index\":0,\"delta\":{\"type\":\"text_delta\",\"text\":\"Hel\"}}\n\n"
    );
    let e = StreamEvent::ContentBlockStart { index: 12, block: BlockStart::Text };
    assert_eq!(
        format_sse(&e),
        "event: content_block_start\ndata: {\"type\":\"content_block_start\",\"index\":12,\"content_block\":{\"type\":\"text\",\"text\":\"\"}}\n\n"
    );
}

#[test]
fn sanitizer_at_stream_start() {
    let got = run(&[r#"{"choices":[{"delta":{"content":"<thinking>\nHi"}}]}"#]);
    assert_eq!(
        got[2],
        StreamEvent::ContentBlockDelta { index: 0, delta: BlockDelta::Text(s("Hi")) }
    );
}

#[test]
fn later_fragments_are_not_sanitized() {
    let got = run(&[
        r#"{"choices":[{"delta":{"content":"A"}}]}"#,
        r#"{"choices":[{"delta":{"content":"\n<thinking> B"}}]}"#,
    ]);
    assert_eq!(
        got[3],
        StreamEvent::ContentBlockDelta { index: 0, delta: BlockDelta::Text(s("\n<thinking> B")) }
    );
}

#[test]
fn fragment_that_sanitizes_to_nothing_opens_no_block() {
    let got = run(&[r#"{"choices":[{"delta":{"content":"  <thought>\n"}}]}"#, "[DONE]"]);
    let mut expected = vec![start()];
    expected.extend(ending("end_turn", 0));
    assert_eq!(got, expected);
}

#[test]
fn tool_call_stream() {
    let got = run(&[
        r#"{"choices":[{"delta":{"tool_calls":[{"index":0,"id":"call_1","function":{"name":"f"}}]}}]}"#,
        r#"{"choices":[{"delta":{"tool_calls":[{"index":0,"function":{"arguments":"{\"x\":"}}]}}]}"#,
        r#"{"choices":[{"delta":{"tool_calls":[{"index":0,"function":{"arguments":"1}"}}]}}]}"#,
        r#"{"choices":[{"finish_reason":"tool_calls","delta":{}}]}"#,
        "[DONE]",
    ]);
    let mut expected = vec![
        start(),
        StreamEvent::ContentBlockStart {
            index: 0,
            block: BlockStart::ToolUse { id: s("call_1"), name: s("f") },
        },
        StreamEvent::ContentBlockDelta { index: 0, delta: BlockDelta::InputJson(s("{\"x\":")) },
        StreamEvent::ContentBlockDelta { index: 0, delta: BlockDelta::InputJson(s("1}")) },
        StreamEvent::ContentBlockStop { index: 0 },
    ];
    expected.extend(ending("tool_use", 0));
    assert_eq!(got, expected);
}

#[test]
fn tool_call_frames_as_text() {
    let e = StreamEvent::ContentBlockStart {
        index: 0,
        block: BlockStart::ToolUse { id: s("call_1"), name: s("f") },
    };
    assert_eq!(
        format_sse(&e),
        "event: content_block_start\ndata: {\"type\":\"content_block_start\",\"index\":0,\"content_block\":{\"type\":\"tool_use\",\"id\":\"call_1\",\"name\":\"f\",\"input\":{}}}\n\n"
    );
    let e = StreamEvent::ContentBlockDelta { index: 0, delta: BlockDelta::InputJson(s("{\"x\":")) };
    assert_eq!(
        format_sse(&e),
        "event: content_block_delta\ndata: {\"type\":\"content_block_delta\",\"index\":0,\"delta\":{\"type\":\"input_json_delta\",\"partial_json\":\"{\\\"x\\\":\"}}\n\n"
    );
}

#[test]
fn thinking_then_text() {
    let got = run(&[
        r#"{"choices":[{"delta":{"reasoning_content":"think"}}]}"#,
        r#"{"choices":[{"delta":{"content":"answer"}}]}"#,
        "[DONE]",
    ]);
    let mut expected = vec![
        start(),
        StreamEvent::ContentBlockStart { index: 0, block: BlockStart::Thinking },
        StreamEvent::ContentBlockDelta { index: 0, delta: BlockDelta::Thinking(s("think")) },
        StreamEvent::ContentBlockDelta { index: 0, delta: BlockDelta::Signature(signature("think")) },
        StreamEvent::ContentBlockStop { index: 0 },
        StreamEvent::ContentBlockStart { index: 1, block: BlockStart::Text },
        StreamEvent::ContentBlockDelta { index: 1, delta: BlockDelta::Text(s("answer")) },
        StreamEvent::ContentBlockStop { index: 1 },
    ];
    expected.extend(ending("end_turn", 0));
    assert_eq!(got, expected);
}

#[test]
fn signature_is_base64_of_sha256() {
    assert_eq!(signature("think"), "3C/BnY/ON2xHZBzxX4I6A60Q8tx9o/QyMFUfUHBpFPU=");
    assert_eq!(proxy_api::signature::generate_signature("think"), signature("think"));
}

#[test]
fn thinking_across_fragments_is_signed_once() {
    let got = run(&[
        r#"{"choices":[{"delta":{"reasoning_content":"a"}}]}"#,
        r#"{"choices":[{"delta":{"reasoning_content":"b"}}]}"#,
    ]);
    let sigs: Vec<&Event> = got
        .iter()
        .filter(|e| matches!(e, StreamEvent::ContentBlockDelta { delta: BlockDelta::Signature(_), .. }))
        .collect();
    assert_eq!(sigs.len(), 1);
    assert_eq!(
        *sigs[0],
        StreamEvent::ContentBlockDelta { index: 0, delta: BlockDelta::Signature(signature("ab")) }
    );
    assert_eq!(got[got.len() - 3], StreamEvent::ContentBlockStop { index: 0 });
    assert_eq!(got[got.len() - 4], *sigs[0]);
}

#[test]
fn usage_and_length_reach_the_final_frame() {
    let got = run(&[
        r#"{"choices":[{"delta":{"content":"x"},"finish_reason":"length"}],"usage":{"prompt_tokens":7,"completion_tokens":9}}"#,
    ]);
    let n = got.len();
    assert_eq!(got[n - 2], StreamEvent::MessageDelta { stop_reason: s("max_tokens"), output_tokens: 9 });
    assert_eq!(got[n - 1], StreamEvent::MessageStop);
}

#[test]
fn malformed_payload_is_dropped() {
    let mut t = StreamTransformer::with_message_id("m", "msg_0123");
    t.start_frame();
    assert!(t.process_payload(&payload("{not json")).is_empty());
    assert!(t.process_payload(&payload(r#"{"choices":[{"delta":{"content":"ok"}}]}"#)).len() == 2);
}

#[test]
fn done_marker_with_whitespace() {
    assert!(proxy_api::sse::is_done_marker("  [DONE]\r\n"));
    assert!(!proxy_api::sse::is_done_marker("[DONE]x"));
    assert!(matches!(payload(" [DONE] "), Payload::Done));
}

#[test]
fn payloads_after_the_end_are_ignored() {
    let mut t = StreamTransformer::with_message_id("m", "msg_0123");
    t.start_frame();
    assert_eq!(t.process_payload(&payload("[DONE]")).len(), 2);
    assert!(t.process_payload(&payload(r#"{"choices":[{"delta":{"content":"late"}}]}"#)).is_empty());
    assert!(t.process_payload(&payload("[DONE]")).is_empty());
    assert!(t.finish_frames().is_empty());
}

#[test]
fn tool_result_stream() {
    let got = run(&[
        r#"{"choices":[{"delta":{"role":"tool","tool_call_id":"t9","content":"r1","is_error":true}}]}"#,
        r#"{"choices":[{"delta":{"content":"r2"}}]}"#,
    ]);
    let mut expected = vec![
        start(),
        StreamEvent::ContentBlockStart {
            index: 0,
            block: BlockStart::ToolResult { tool_use_id: s("t9"), is_error: true },
        },
        StreamEvent::ContentBlockDelta { index: 0, delta: BlockDelta::Content(s("r1")) },
        StreamEvent::ContentBlockDelta { index: 0, delta: BlockDelta::Content(s("r2")) },
        StreamEvent::ContentBlockStop { index: 0 },
    ];
    expected.extend(ending("end_turn", 0));
    assert_eq!(got, expected);
}

#[test]
fn arguments_without_open_tool_call_are_dropped() {
    let got = run(&[r#"{"choices":[{"delta":{"tool_calls":[{"index":0,"function":{"arguments":"{}"}}]}}]}"#]);
    let mut expected = vec![start()];
    expected.extend(ending("end_turn", 0));
    assert_eq!(got, expected);
}

#[test]
fn fresh_message_id_has_its_form() {
    let mut t = StreamTransformer::new("m");
    match t.start_frame() {
        StreamEvent::MessageStart { id, model } => {
            assert_eq!(model, "m");
            assert_eq!(id.len(), 28);
            assert!(id.starts_with("msg_"));
            assert!(id[4..].chars().all(|c| c.is_ascii_hexdigit() && !c.is_ascii_uppercase()));
        }
        other => panic!("unexpected frame {:?}", other),
    }
}

fn check_framing(frames: &[Event]) {
    assert!(matches!(frames[0], StreamEvent::MessageStart { .. }));
    assert!(matches!(frames[frames.len() - 1], StreamEvent::MessageStop));
    assert!(matches!(frames[frames.len() - 2], StreamEvent::MessageDelta { .. }));
    let mut next = 0u64;
    let mut open: Option<(u64, bool, bool)> = None;
    for (k, e) in frames.iter().enumerate() {
        match e {
            StreamEvent::MessageStart { .. } => assert_eq!(k, 0),
            StreamEvent::ContentBlockStart { index, block } => {
                assert!(open.is_none());
                assert_eq!(*index, next);
                next += 1;
                open = Some((*index, matches!(block, BlockStart::Thinking), false));
            }
            StreamEvent::ContentBlockDelta { index, delta } => {
                let (i, thinking, signed) = open.expect("delta outside a block");
                assert_eq!(*index, i);
                assert!(!signed);
                if let BlockDelta::Signature(_) = delta {
                    assert!(thinking);
                    open = Some((i, thinking, true));
                }
            }
            StreamEvent::ContentBlockStop { index } => {
                let (i, thinking, signed) = open.expect("stop outside a block");
                assert_eq!(*index, i);
                assert_eq!(thinking, signed);
                open = None;
            }
            StreamEvent::MessageDelta { .. } => assert_eq!(k, frames.len() - 2),
            StreamEvent::MessageStop => assert_eq!(k, frames.len() - 1),
        }
    }
}

#[test]
fn mixed_stream_is_well_framed() {
    let frames = run(&[
        r#"{"choices":[{"delta":{"reasoning_content":"r"}}]}"#,
        r#"{"choices":[{"delta":{"content":"t1"}}]}"#,
        r#"{"choices":[{"delta":{"tool_calls":[{"index":0,"id":"a","function":{"name":"f","arguments":"{"}},{"index":1,"id":"b","function":{"name":"g"}}]}}]}"#,
        r#"{"choices":[{"delta":{"reasoning_content":"again"}}]}"#,
        r#"{"choices":[{"delta":{"role":"tool","tool_call_id":"a","content":"res"}}]}"#,
        r#"{"choices":[{"delta":{"content":"t2"}}]}"#,
        "garbage",
    ]);
    check_framing(&frames);
    let starts = frames.iter().filter(|e| matches!(e, StreamEvent::ContentBlockStart { .. })).count();
    assert_eq!(starts, 6);
}

#[test]
fn tool_arguments_concatenate() {
    let frames = run(&[
        r#"{"choices":[{"delta":{"tool_calls":[{"index":0,"id":"c","function":{"name":"f","arguments":"{\"a\""}}]}}]}"#,
        r#"{"choices":[{"delta":{"tool_calls":[{"index":0,"function":{"arguments":":"}}]}}]}"#,
        r#"{"choices":[{"delta":{"tool_calls":[{"index":0,"function":{"arguments":"[1,2]}"}}]}}]}"#,
    ]);
    let mut joined = String::new();
    for e in &frames {
        if let StreamEvent::ContentBlockDelta { index: 0, delta: BlockDelta::InputJson(p) } = e {
            joined.push_str(p);
        }
    }
    assert_eq!(joined, "{\"a\":[1,2]}");
}
