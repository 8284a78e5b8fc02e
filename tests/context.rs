use playbot::context::{is_channel, plan_reply, MAX_LINE_LEN, TOO_LONG_PLACEHOLDER};
use playbot::{Context, InboundMessage, ReplyKind, SharedStr};

fn message(body: &str, target: &str) -> InboundMessage {
    InboundMessage {
        is_text: true,
        body: body.to_string(),
        source: Some("alice!a@example.org".to_string()),
        source_nickname: Some("alice".to_string()),
        target: Some(target.to_string()),
    }
}

#[test]
fn address_prefix_in_channel_is_stripped() {
    let ctx = Context::new("eval", &message("eval: foo bar", "#rust")).unwrap();
    assert!(ctx.is_directly_addressed());
    assert_eq!(ctx.body().as_str(), "foo bar");
    assert_eq!(ctx.reply_kind(), ReplyKind::Notice);
    assert!(!ctx.is_ctcp());
}

#[test]
fn private_message_is_addressed() {
    let ctx = Context::new("eval", &message("foo bar", "alice")).unwrap();
    assert!(ctx.is_directly_addressed());
    assert_eq!(ctx.body().as_str(), "foo bar");
    assert_eq!(ctx.reply_kind(), ReplyKind::PrivateMessage);
}

#[test]
fn channel_message_without_address_is_not_addressed() {
    let ctx = Context::new("eval", &message("  hello eval  ", "#rust")).unwrap();
    assert!(!ctx.is_directly_addressed());
    assert_eq!(ctx.body().as_str(), "hello eval");
}

#[test]
fn name_without_punctuation_is_no_address() {
    let ctx = Context::new("eval", &message("eval foo", "#rust")).unwrap();
    assert!(!ctx.is_directly_addressed());
    assert_eq!(ctx.body().as_str(), "eval foo");
}

#[test]
fn comma_and_space_before_punctuation_address_too() {
    let ctx = Context::new("eval", &message("eval , 1 + 1", "#rust")).unwrap();
    assert!(ctx.is_directly_addressed());
    assert_eq!(ctx.body().as_str(), "1 + 1");
}

#[test]
fn meta_message_markers_are_stripped() {
    let ctx = Context::new("eval", &message("\u{1}ACTION waves\u{1}", "#rust")).unwrap();
    assert!(ctx.is_ctcp());
    assert_eq!(ctx.body().as_str(), "ACTION waves");
    let plain = Context::new("eval", &message("\u{1}", "#rust")).unwrap();
    assert!(!plain.is_ctcp());
}

#[test]
fn unresolvable_messages_give_no_context() {
    let mut m = message("hi", "#rust");
    m.is_text = false;
    assert!(Context::new("eval", &m).is_none());
    let mut m = message("hi", "#rust");
    m.target = None;
    assert!(Context::new("eval", &m).is_none());
    let mut m = message("hi", "#rust");
    m.source_nickname = None;
    assert!(Context::new("eval", &m).is_none());
    let mut m = message("hi", "#rust");
    m.source = None;
    assert!(Context::new("eval", &m).is_none());
}

#[test]
fn identity_fields_are_kept() {
    let ctx = Context::new("eval", &message("hi", "#rust")).unwrap();
    assert_eq!(ctx.source().as_str(), "alice!a@example.org");
    assert_eq!(ctx.source_nickname().as_str(), "alice");
    assert_eq!(ctx.target().as_str(), "#rust");
    assert_eq!(ctx.current_nickname().as_str(), "eval");
}

#[test]
fn channel_names() {
    for name in ["#a", "&a", "+a", "!a"] {
        assert!(is_channel(&SharedStr::from_text(name)));
    }
    assert!(!is_channel(&SharedStr::from_text("alice")));
    assert!(!is_channel(&SharedStr::from_text("")));
}

#[test]
fn inline_contexts_take_brace_spans_in_order() {
    let ctx = Context::new("eval", &message("see {?crate serde} and {?crate rand}", "#rust")).unwrap();
    let bodies: Vec<String> = ctx.inline_contexts().iter().map(|c| c.body().as_str()).collect();
    assert_eq!(bodies, vec!["?crate serde", "?crate rand"]);
    let child = &ctx.inline_contexts()[0];
    assert_eq!(child.target().as_str(), "#rust");
    assert!(!child.is_directly_addressed());
}

#[test]
fn inline_spans_are_lazy_and_stop_at_line_breaks() {
    let ctx = Context::new("eval", &message("{a{b} c} {} {x\ny} {z}", "#rust")).unwrap();
    let bodies: Vec<String> = ctx.inline_contexts().iter().map(|c| c.body().as_str()).collect();
    assert_eq!(bodies, vec!["a{b", "", "z"]);
}

#[test]
fn addressed_context_has_no_inline_contexts() {
    let ctx = Context::new("eval", &message("eval: {?crate serde}", "#rust")).unwrap();
    assert!(ctx.inline_contexts().is_empty());
}

#[test]
fn reply_replaces_too_long_middle_line() {
    let ctx = Context::new("eval", &message("hi", "#rust")).unwrap();
    let long = "x".repeat(MAX_LINE_LEN + 1);
    let text = format!("first\n{}\nlast", long);
    let out = ctx.reply(&text);
    assert_eq!(out.len(), 3);
    assert_eq!(out[0].text.as_str(), "first");
    assert_eq!(out[1].text.as_str(), TOO_LONG_PLACEHOLDER);
    assert_eq!(out[2].text.as_str(), "last");
    assert!(out.iter().all(|o| o.target.as_str() == "#rust" && o.kind == ReplyKind::Notice));
}

#[test]
fn reply_line_at_the_limit_is_sent() {
    let exact = "y".repeat(MAX_LINE_LEN);
    let out = plan_reply(&SharedStr::from_text(&exact));
    assert_eq!(out.len(), 1);
    assert_eq!(out[0].as_str(), exact);
}

#[test]
fn reply_lines_follow_line_rules() {
    let out = plan_reply(&SharedStr::from_text("a\r\nb\n\nc\n"));
    let lines: Vec<String> = out.iter().map(|l| l.as_str()).collect();
    assert_eq!(lines, vec!["a", "b", "", "c"]);
    assert!(plan_reply(&SharedStr::from_text("")).is_empty());
}

#[test]
fn meta_message_has_no_inline_contexts() {
    let ctx = Context::new("eval", &message("\u{1}ACTION {?crate serde}\u{1}", "#rust")).unwrap();
    assert!(ctx.is_ctcp());
    assert!(ctx.inline_contexts().is_empty());
}

#[test]
fn line_limit_counts_utf8_bytes() {
    let over = "€".repeat(700);
    let out = plan_reply(&SharedStr::from_text(&over));
    assert_eq!(out.len(), 1);
    assert_eq!(out[0].as_str(), TOO_LONG_PLACEHOLDER);
    let just_over = "€".repeat(667);
    assert_eq!(plan_reply(&SharedStr::from_text(&just_over))[0].as_str(), TOO_LONG_PLACEHOLDER);
    let under = "€".repeat(666);
    assert_eq!(plan_reply(&SharedStr::from_text(&under))[0].as_str(), under);
    let mixed = format!("{}{}", "é".repeat(999), "ab");
    assert_eq!(mixed.len(), MAX_LINE_LEN);
    assert_eq!(plan_reply(&SharedStr::from_text(&mixed))[0].as_str(), mixed);
}

#[test]
fn utf8_length_check() {
    let s = SharedStr::from_text("a\u{e9}\u{20ac}\u{1f600}");
    assert!(!s.utf8_len_exceeds(10));
    assert!(s.utf8_len_exceeds(9));
    assert!(!SharedStr::from_text("").utf8_len_exceeds(0));
}
