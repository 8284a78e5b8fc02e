use playbot::{Command, SharedStr};

fn parse(prefix: &str, body: &str) -> Option<Command> {
    Command::parse(&SharedStr::from_text(prefix), &SharedStr::from_text(body))
}

#[test]
fn parse_gives_name_and_every_later_word() {
    let c = parse("?", "?crate serde extra").unwrap();
    assert_eq!(c.name().as_str(), "crate");
    let args: Vec<String> = c.args().iter().map(|a| a.as_str()).collect();
    assert_eq!(args, vec!["serde", "extra"]);
}

#[test]
fn parse_trims_the_body_first() {
    let c = parse("?", "   ?help  ").unwrap();
    assert_eq!(c.name().as_str(), "help");
    assert!(c.args().is_empty());
}

#[test]
fn parse_needs_the_prefix() {
    assert!(parse("?", "crate serde").is_none());
    assert!(parse("?", "").is_none());
    assert!(parse("?", "   ").is_none());
    assert!(parse("!!", "!crate").is_none());
}

#[test]
fn parse_needs_a_name_after_the_prefix() {
    assert!(parse("?", "? crate").is_none());
    assert!(parse("?", "?").is_none());
}

#[test]
fn parse_with_longer_prefix() {
    let c = parse("!!", "!!run x").unwrap();
    assert_eq!(c.name().as_str(), "run");
    assert_eq!(c.into_args().len(), 1);
}
