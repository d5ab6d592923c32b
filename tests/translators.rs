use proxy_api::events::{BlockDelta, BlockStart, StreamEvent};
use proxy_api::json::{Json, Number};
use proxy_api::request::transform_request;
use proxy_api::response::{build_response, extract_text_from_blocks, tool_call_count, transform_response};
use proxy_api::stream::{Payload, StreamTransformer};

fn to_json(v: serde_json::Value) -> Json {
    match v {
        serde_json::Value::Null => Json::Null,
        serde_json::Value::Bool(b) => Json::Bool(b),
        serde_json::Value::Number(n) => {
            if let Some(u) = n.as_u64() {
                Json::Num(Number::PosInt(u))
            } else if let Some(i) = n.as_i64() {
                Json::Num(Number::NegInt(i))
            } else {
                Json::Num(Number::Float(n.to_string()))
            }
        }
        serde_json::Value::String(s) => Json::Str(s),
        serde_json::Value::Array(a) => Json::Array(a.into_iter().map(to_json).collect()),
        serde_json::Value::Object(m) => {
            Json::Object(m.into_iter().map(|(k, v)| (k, to_json(v))).collect())
        }
    }
}

fn parse(text: &str) -> Json {
    to_json(serde_json::from_str(text).expect("test document"))
}

/// The document as serde_json reads the library's own text for it.
fn value(j: &Json) -> serde_json::Value {
    serde_json::from_str(&j.to_text()).expect("library text is JSON")
}

fn expect(text: &str) -> serde_json::Value {
    serde_json::from_str(text).expect("expected document")
}

fn ids(n: usize) -> Vec<String> {
    (0..n).map(|k| format!("toolu_{:024}", k)).collect()
}

#[test]
fn non_streaming_tool_call_response() {
    let resp = parse(
        r#"{"choices":[{"message":{"content":"Hi","tool_calls":[{"id":"t1","function":{"name":"f","arguments":"{\"a\":1}"}}]},"finish_reason":"tool_calls"}],"usage":{"prompt_tokens":10,"completion_tokens":5}}"#,
    );
    assert_eq!(tool_call_count(&resp), 1);
    let out = build_response(&resp, "m", "msg_x", &ids(1));
    assert_eq!(
        value(&out),
        expect(
            r#"{"id":"msg_x","type":"message","role":"assistant","model":"m","content":[{"type":"text","text":"Hi"},{"type":"tool_use","id":"t1","name":"f","input":{"a":1}}],"stop_reason":"tool_use","stop_sequence":null,"usage":{"input_tokens":10,"output_tokens":5}}"#
        )
    );
}

#[test]
fn response_with_reasoning_and_fallback_ids() {
    let resp = parse(
        r#"{"choices":[{"message":{"reasoning_content":"why","content":"<thinking>","tool_calls":[{"function":{"name":"g","arguments":"not json"}}]}}]}"#,
    );
    let out = build_response(&resp, "m", "msg_y", &ids(1));
    assert_eq!(
        value(&out),
        expect(
            r#"{"id":"msg_y","type":"message","role":"assistant","model":"m","content":[{"type":"thinking","thinking":"why"},{"type":"tool_use","id":"toolu_000000000000000000000000","name":"g","input":{}}],"stop_reason":"end_turn","stop_sequence":null,"usage":{"input_tokens":0,"output_tokens":0}}"#
        )
    );
}

#[test]
fn response_tool_result_and_plain_text() {
    let resp = parse(
        r#"{"choices":[{"message":{"role":"tool","tool_call_id":"c1","content":[{"type":"text","text":"a"},{"type":"image"},{"type":"text","text":"b"}]},"finish_reason":"length"}]}"#,
    );
    let out = build_response(&resp, "m", "msg_z", &ids(0));
    assert_eq!(
        value(&out)["content"],
        expect(r#"[{"type":"tool_result","tool_use_id":"c1","content":"a\nb","is_error":false}]"#)
    );
    assert_eq!(value(&out)["stop_reason"], expect(r#""max_tokens""#));
    let plain = parse(r#"{"choices":[{"message":{"content":"\n\nThought: fine"}}]}"#);
    let out = build_response(&plain, "m", "msg_z", &ids(0));
    assert_eq!(value(&out)["content"], expect(r#"[{"type":"text","text":"fine"}]"#));
}

#[test]
fn transform_response_draws_fresh_ids() {
    let resp = parse(r#"{"choices":[{"message":{"tool_calls":[{"function":{"name":"g"}}]}}]}"#);
    let out = value(&transform_response(&resp, "m"));
    let id = out["id"].as_str().unwrap();
    assert!(id.starts_with("msg_") && id.len() == 28);
    let tool_id = out["content"][0]["id"].as_str().unwrap();
    assert!(tool_id.starts_with("toolu_") && tool_id.len() == 30);
    assert_eq!(out["content"][0]["input"], expect("{}"));
}

#[test]
fn extract_text_joins_text_blocks() {
    let blocks = match parse(r#"[{"type":"text","text":"x"},{"type":"other","text":"no"},{"type":"text","text":"y"}]"#) {
        Json::Array(a) => a,
        _ => unreachable!(),
    };
    assert_eq!(extract_text_from_blocks(&blocks), "x\ny");
    assert_eq!(extract_text_from_blocks(&Vec::new()), "");
}

#[test]
fn request_with_system_tools_and_thinking() {
    let body = parse(
        r#"{"model":"big-model","max_tokens":50,"stream":true,"system":[{"type":"text","text":"be"},{"type":"text","text":"kind"}],"messages":[{"role":"user","content":"Hello"}],"temperature":0.5,"stop_sequences":["END"],"tools":[{"name":"f","description":"d","input_schema":{"type":"object"}}],"tool_choice":{"type":"any"},"thinking":{"enabled":true,"budget_tokens":300}}"#,
    );
    let out = value(&transform_request(&body));
    assert_eq!(
        out,
        expect(
            r#"{"model":"big-model","messages":[{"role":"system","content":"be\nkind"},{"role":"user","content":"Hello"}],"max_tokens":50,"stream":true,"temperature":0.5,"stop":["END"],"tools":[{"type":"function","function":{"name":"f","description":"d","parameters":{"type":"object"}}}],"tool_choice":"required","reasoning":{"max_tokens":300},"thinking":{"enabled":true,"budget_tokens":300},"stream_options":{"include_usage":true}}"#
        )
    );
}

#[test]
fn request_defaults() {
    let out = value(&transform_request(&parse(r#"{"model":"m","messages":[]}"#)));
    assert_eq!(out, expect(r#"{"model":"m","messages":[],"max_tokens":1024,"stream":false}"#));
}

#[test]
fn request_user_blocks_flush_before_tool_results() {
    let body = parse(
        r#"{"model":"m","system":"sys","messages":[{"role":"user","content":[{"type":"text","text":"look"},{"type":"image","source":{"media_type":"image/jpeg","data":"QUJD"}},{"type":"tool_result","tool_use_id":"t1","content":[{"type":"text","text":"r1"},{"type":"text","text":"r2"}]},{"type":"text","text":"after"}]}]}"#,
    );
    let out = value(&transform_request(&body));
    assert_eq!(
        out["messages"],
        expect(
            r#"[{"role":"system","content":"sys"},{"role":"user","content":[{"type":"text","text":"look"},{"type":"image_url","image_url":{"url":"data:image/jpeg;base64,QUJD"}}]},{"role":"tool","tool_call_id":"t1","content":"r1\nr2"},{"role":"user","content":[{"type":"text","text":"after"}]}]"#
        )
    );
}

#[test]
fn request_assistant_blocks() {
    let body = parse(
        r#"{"model":"m","messages":[{"role":"assistant","content":[{"type":"thinking","thinking":"hidden"},{"type":"text","text":"A"},{"type":"text","text":"B"},{"type":"tool_use","id":"u1","name":"f","input":{"k":[1,"v"]}}]},{"role":"assistant","content":[{"type":"thinking","thinking":"only"}]}]}"#,
    );
    let out = value(&transform_request(&body));
    assert_eq!(
        out["messages"],
        expect(
            r#"[{"role":"assistant","content":"AB","tool_calls":[{"id":"u1","type":"function","function":{"name":"f","arguments":"{\"k\":[1,\"v\"]}"}}]},{"role":"assistant"}]"#
        )
    );
}

#[test]
fn request_tool_choice_variants() {
    let tool = |choice: &str| {
        let body = parse(&format!(
            r#"{{"model":"m","messages":[],"tools":[],"tool_choice":{}}}"#,
            choice
        ));
        value(&transform_request(&body)).get("tool_choice").cloned()
    };
    assert_eq!(tool(r#"{"type":"auto"}"#), Some(expect(r#""auto""#)));
    assert_eq!(
        tool(r#"{"type":"tool","name":"f"}"#),
        Some(expect(r#"{"type":"function","function":{"name":"f"}}"#))
    );
    assert_eq!(tool(r#"{"type":"tool"}"#), None);
    assert_eq!(tool(r#"{"type":"none"}"#), None);
    let no_tools = parse(r#"{"model":"m","messages":[],"tool_choice":{"type":"any"}}"#);
    assert_eq!(value(&transform_request(&no_tools)).get("tool_choice"), None);
}

#[test]
fn text_round_trip() {
    let body = parse(r#"{"model":"m","messages":[{"role":"user","content":"Hello there"}]}"#);
    let upstream = value(&transform_request(&body));
    let text = upstream["messages"][0]["content"].as_str().unwrap().to_string();
    let reply = parse(&format!(
        r#"{{"choices":[{{"message":{{"content":{}}},"finish_reason":"stop"}}]}}"#,
        serde_json::to_string(&text).unwrap()
    ));
    let back = value(&build_response(&reply, "m", "msg_r", &ids(0)));
    assert_eq!(back["content"], expect(r#"[{"type":"text","text":"Hello there"}]"#));
}

#[test]
fn stream_and_document_agree() {
    let payloads = [
        r#"{"choices":[{"delta":{"content":"Hi"}}]}"#,
        r#"{"choices":[{"delta":{"tool_calls":[{"index":0,"id":"t1","function":{"name":"f","arguments":"{\"a\":"}}]}}]}"#,
        r#"{"choices":[{"delta":{"tool_calls":[{"index":0,"function":{"arguments":"1}"}}]}}]}"#,
        "[DONE]",
    ];
    let mut t = StreamTransformer::with_message_id("m", "msg_s");
    t.start_frame();
    let mut frames = Vec::new();
    for p in payloads {
        let doc = serde_json::from_str::<serde_json::Value>(p).ok().map(to_json);
        frames.extend(t.process_payload(&Payload::classify(p, doc)));
    }
    let mut text = String::new();
    let mut args = String::new();
    let mut call = (String::new(), String::new());
    for e in &frames {
        match e {
            StreamEvent::ContentBlockDelta { delta: BlockDelta::Text(s), .. } => text.push_str(s),
            StreamEvent::ContentBlockDelta { delta: BlockDelta::InputJson(s), .. } => args.push_str(s),
            StreamEvent::ContentBlockStart { block: BlockStart::ToolUse { id, name }, .. } => {
                call = (id.clone(), name.clone())
            }
            _ => {}
        }
    }
    let doc = format!(
        r#"{{"choices":[{{"message":{{"content":{},"tool_calls":[{{"id":{},"function":{{"name":{},"arguments":{}}}}}]}}}}]}}"#,
        serde_json::to_string(&text).unwrap(),
        serde_json::to_string(&call.0).unwrap(),
        serde_json::to_string(&call.1).unwrap(),
        serde_json::to_string(&args).unwrap()
    );
    let out = value(&build_response(&parse(&doc), "m", "msg_s", &ids(1)));
    assert_eq!(
        out["content"],
        expect(r#"[{"type":"text","text":"Hi"},{"type":"tool_use","id":"t1","name":"f","input":{"a":1}}]"#)
    );
}

#[test]
fn json_text_is_compact() {
    let j = parse(r#"{"a":[1,-2,2.5,true,null,"x\"y"],"b":{}}"#);
    assert_eq!(j.to_text(), r#"{"a":[1,-2,2.5,true,null,"x\"y"],"b":{}}"#);
}

#[test]
fn request_other_role_joins_texts() {
    let body = parse(
        r#"{"model":"m","messages":[{"role":"developer","content":[{"type":"text","text":"a"},{"type":"note","text":"b"},{"type":"image"}]},{"role":"user","content":7}]}"#,
    );
    let out = value(&transform_request(&body));
    assert_eq!(out["messages"], expect(r#"[{"role":"developer","content":"a\nb"}]"#));
}

#[test]
fn convert_content_blocks_appends() {
    let blocks = match parse(r#"[{"type":"tool_result","tool_use_id":"x","content":"done"},{"text":"untyped"}]"#) {
        Json::Array(a) => a,
        _ => unreachable!(),
    };
    let mut messages = vec![parse(r#"{"role":"system","content":"s"}"#)];
    proxy_api::request::convert_content_blocks("user", &blocks, &mut messages);
    let got: Vec<serde_json::Value> = messages.iter().map(value).collect();
    assert_eq!(
        serde_json::Value::Array(got),
        expect(
            r#"[{"role":"system","content":"s"},{"role":"tool","tool_call_id":"x","content":"done"},{"role":"user","content":[{"type":"text","text":"untyped"}]}]"#
        )
    );
}
