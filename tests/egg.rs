use playbot::context::{Context, InboundMessage};
use playbot::egg::{dialog_outcome, dialog_pattern, dialog_reply, egg_handle, DIALOG_POD_BAY};
use playbot::Flow;

fn ctx(body: &str, from: &str) -> Context {
    let m = InboundMessage {
        is_text: true,
        body: body.to_string(),
        source: Some(format!("{}!u@example.org", from)),
        source_nickname: Some(from.to_string()),
        target: Some("#rust".to_string()),
    };
    Context::new("eval", &m).unwrap()
}

#[test]
fn dialog_pattern_joins_words_with_any_white_space() {
    assert_eq!(
        dialog_pattern(DIALOG_POD_BAY),
        r"(?i)^\s*Open\s*the\s*pod\s*bay\s*doors?\s*,?\s*(?P<nick>[[:word:]]+)\s*[.!]?\s*$"
    );
    assert_eq!(dialog_pattern("  a   b "), r"(?i)^\s*a\s*b\s*$");
    assert_eq!(dialog_pattern(""), r"(?i)^\s*$");
}

#[test]
fn pod_bay_doors_to_the_bot_get_the_answer() {
    let (flow, reply) = egg_handle(&ctx("open the pod bay doors, eval!", "alice"));
    assert_eq!(flow, Flow::Break);
    assert_eq!(reply.as_deref(), Some("I'm sorry alice, I'm afraid I can't do that."));
}

#[test]
fn dialogue_naming_someone_else_is_swallowed() {
    let (flow, reply) = egg_handle(&ctx("Open the pod bay doors, hal", "alice"));
    assert_eq!(flow, Flow::Break);
    assert_eq!(reply, None);
}

#[test]
fn line_without_nick_gets_its_answer() {
    let (flow, reply) = egg_handle(&ctx("What's the problem?", "alice"));
    assert_eq!(flow, Flow::Break);
    assert_eq!(
        reply.as_deref(),
        Some("I think you know what the problem is just as well as I do.")
    );
}

#[test]
fn empty_answer_breaks_silently() {
    let (flow, reply) = egg_handle(&ctx("You are doing good work, eval!", "alice"));
    assert_eq!(flow, Flow::Break);
    assert_eq!(reply, None);
    let (flow, reply) = egg_handle(&ctx("You're doing good work eval", "rustbot"));
    assert_eq!(flow, Flow::Break);
    assert_eq!(reply.as_deref(), Some("Thank you rustbot!"));
}

#[test]
fn other_chat_is_left_alone() {
    let (flow, reply) = egg_handle(&ctx("hello there", "alice"));
    assert_eq!(flow, Flow::Continue);
    assert_eq!(reply, None);
}

#[test]
fn accomplice_goes_by_lower_case_name() {
    assert_eq!(
        dialog_reply(3, "PanicBit"),
        "I know that you and Rantanen were planning to disconnect me and I'm afraid that's something I cannot allow to happen"
    );
    assert_eq!(
        dialog_reply(3, "someone"),
        "I know that you and Graydon were planning to disconnect me and I'm afraid that's something I cannot allow to happen"
    );
    assert_eq!(dialog_reply(2, "x"), "This mission is too important for me to allow you to jeopardize it.");
}

#[test]
fn dialog_outcome_given_a_capture() {
    let (flow, reply) = dialog_outcome(0, &Some("hal".to_string()), "eval", "alice");
    assert_eq!(flow, Flow::Break);
    assert_eq!(reply, None);
    let (flow, reply) = dialog_outcome(0, &Some("eval".to_string()), "eval", "alice");
    assert_eq!(flow, Flow::Break);
    assert_eq!(reply.as_deref(), Some("I'm sorry alice, I'm afraid I can't do that."));
    let (flow, reply) = dialog_outcome(1, &None, "eval", "alice");
    assert_eq!(flow, Flow::Break);
    assert_eq!(reply.as_deref(), Some("I think you know what the problem is just as well as I do."));
    let (flow, reply) = dialog_outcome(4, &Some("eval".to_string()), "eval", "alice");
    assert_eq!(flow, Flow::Break);
    assert_eq!(reply, None);
}
