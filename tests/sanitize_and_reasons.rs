use proxy_api::events::map_stop_reason;
use proxy_api::sanitize::strip_hallucinated_tags;

#[test]
fn strips_leading_tags_repeatedly() {
    assert_eq!(strip_hallucinated_tags("<thinking>\nHi"), "Hi");
    assert_eq!(strip_hallucinated_tags("  </THINKING> [reasoning]: Thought:  answer  "), "answer  ");
    assert_eq!(strip_hallucinated_tags("[End of Reasoning]\n\nDone"), "Done");
    assert_eq!(strip_hallucinated_tags("Reasoning:"), "");
    assert_eq!(strip_hallucinated_tags(""), "");
}

#[test]
fn keeps_text_that_does_not_start_with_a_tag() {
    assert_eq!(strip_hallucinated_tags("Hello <thinking>"), "Hello <thinking>");
    assert_eq!(strip_hallucinated_tags("Thoughtful"), "Thoughtful");
}

#[test]
fn strips_unicode_whitespace() {
    assert_eq!(strip_hallucinated_tags("\u{3000}\u{a0}x"), "x");
    assert_eq!(strip_hallucinated_tags("\u{2028}<thought>\u{85}y"), "y");
}

#[test]
fn sanitizer_is_idempotent_on_examples() {
    for x in ["<thinking>\nHi", "  Thought: Reasoning: a", "plain", "\n\n<reasoning>", "ÄÖ <thought>"] {
        let once = strip_hallucinated_tags(x);
        assert_eq!(strip_hallucinated_tags(&once), once);
    }
}

#[test]
fn finish_reason_table() {
    assert_eq!(map_stop_reason("stop"), "end_turn");
    assert_eq!(map_stop_reason("tool_calls"), "tool_use");
    assert_eq!(map_stop_reason("length"), "max_tokens");
    assert_eq!(map_stop_reason("content_filter"), "end_turn");
    assert_eq!(map_stop_reason("function_call"), "end_turn");
    assert_eq!(map_stop_reason(""), "end_turn");
}
