use proxy_api::config::Config;
use proxy_api::sse::SseDecoder;

#[test]
fn decoder_splits_frames_across_chunks() {
    let mut d = SseDecoder::new();
    assert!(d.push("data: {\"a\":1}\n").is_empty());
    assert_eq!(d.push("\ndata: x\r\nevent: e\ndata: y\n\ndata: par"), vec!["{\"a\":1}", "x", "y"]);
    assert_eq!(d.push("tial"), Vec::<String>::new());
    assert_eq!(d.flush(), vec!["partial"]);
    assert!(d.flush().is_empty());
}

#[test]
fn decoder_ignores_other_lines() {
    let mut d = SseDecoder::new();
    assert_eq!(d.push(": comment\nid: 3\ndata:nospace\ndata: [DONE]\n\n"), vec!["[DONE]"]);
}

#[test]
fn endpoints_drop_trailing_slashes() {
    let c = Config::new("k", "https://host/v1//", None);
    assert_eq!(c.chat_completions_url(), "https://host/v1/chat/completions");
    assert_eq!(c.models_url(), "https://host/v1/models");
    assert_eq!(c.authorization(), "Bearer k");
    assert_eq!(c.port, 3000);
    assert_eq!(Config::new("k", "http://h", Some(8080)).port, 8080);
}
