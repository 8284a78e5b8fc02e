use playbot::{
    CommandRegistry, Context, FallbackHandler, Flow, HandlerRef, InboundMessage, NamedHandler,
    SharedStr,
};
use std::cell::RefCell;

struct Recorder {
    flow: Flow,
    seen: RefCell<Vec<String>>,
}

impl Recorder {
    fn new(flow: Flow) -> Self {
        Recorder { flow, seen: RefCell::new(Vec::new()) }
    }
}

impl NamedHandler for Recorder {
    fn handle(&self, ctx: &Context, args: &[SharedStr]) -> Flow {
        let args: Vec<String> = args.iter().map(|a| a.as_str()).collect();
        self.seen.borrow_mut().push(format!("{}|{}", ctx.body().as_str(), args.join(",")));
        self.flow
    }
}

impl FallbackHandler for Recorder {
    fn handle(&self, ctx: &Context) -> Flow {
        self.seen.borrow_mut().push(ctx.body().as_str());
        self.flow
    }
}

fn message(body: &str, target: &str) -> InboundMessage {
    InboundMessage {
        is_text: true,
        body: body.to_string(),
        source: Some("alice!a@example.org".to_string()),
        source_nickname: Some("alice".to_string()),
        target: Some(target.to_string()),
    }
}

fn handlers(calls: &[playbot::Call]) -> Vec<HandlerRef> {
    calls.iter().map(|c| c.handler).collect()
}

#[test]
fn breaking_named_handler_stops_before_fallbacks() {
    let mut reg: CommandRegistry<Recorder, Recorder> = CommandRegistry::new("?");
    reg.set_named_handler("crate", Recorder::new(Flow::Break));
    reg.add_fallback_handler(Recorder::new(Flow::Break));
    let calls = reg.handle_message("eval", &message("?crate foo", "#rust"));
    assert_eq!(handlers(&calls), vec![HandlerRef::Named(0)]);
    assert_eq!(calls[0].flow, Flow::Break);
    assert_eq!(calls[0].args.len(), 1);
    assert_eq!(calls[0].args[0].as_str(), "foo");
}

#[test]
fn at_most_three_contexts_are_tried() {
    let mut reg: CommandRegistry<Recorder, Recorder> = CommandRegistry::new("?");
    reg.set_named_handler("x", Recorder::new(Flow::Continue));
    reg.add_fallback_handler(Recorder::new(Flow::Continue));
    let text = "{?x a} {?x b} {?x c} {?x d}";
    let ctx = Context::new("eval", &message(text, "#rust")).unwrap();
    assert_eq!(ctx.inline_contexts().len(), 4);
    let calls = reg.dispatch(&ctx);
    assert_eq!(
        handlers(&calls),
        vec![HandlerRef::Named(0), HandlerRef::Named(0), HandlerRef::Fallback(0)]
    );
    assert_eq!(calls[0].body.as_str(), "?x a");
    assert_eq!(calls[1].body.as_str(), "?x b");
    assert_eq!(calls[2].body.as_str(), text);
}

#[test]
fn no_named_handler_anywhere_runs_fallbacks() {
    let mut reg: CommandRegistry<Recorder, Recorder> = CommandRegistry::new("?");
    reg.set_named_handler("crate", Recorder::new(Flow::Break));
    reg.add_fallback_handler(Recorder::new(Flow::Continue));
    reg.add_fallback_handler(Recorder::new(Flow::Break));
    reg.add_fallback_handler(Recorder::new(Flow::Break));
    let calls = reg.handle_message("eval", &message("{a} {b} {c} {d}", "#rust"));
    assert_eq!(handlers(&calls), vec![HandlerRef::Fallback(0), HandlerRef::Fallback(1)]);
}

#[test]
fn continuing_top_command_is_tried_again_with_inline_ones() {
    let mut reg: CommandRegistry<Recorder, Recorder> = CommandRegistry::new("?");
    reg.set_named_handler("x", Recorder::new(Flow::Continue));
    reg.set_named_handler("y", Recorder::new(Flow::Break));
    reg.add_fallback_handler(Recorder::new(Flow::Break));
    let calls = reg.handle_message("eval", &message("?x {?y 1} {?x 2} {?y 3}", "#rust"));
    assert_eq!(
        handlers(&calls),
        vec![HandlerRef::Named(0), HandlerRef::Named(0), HandlerRef::Named(1), HandlerRef::Named(0)]
    );
}

#[test]
fn meta_and_unresolvable_messages_dispatch_nothing() {
    let mut reg: CommandRegistry<Recorder, Recorder> = CommandRegistry::new("?");
    reg.set_named_handler("crate", Recorder::new(Flow::Break));
    reg.add_fallback_handler(Recorder::new(Flow::Break));
    assert!(reg.handle_message("eval", &message("\u{1}?crate foo\u{1}", "#rust")).is_empty());
    let mut m = message("?crate foo", "#rust");
    m.is_text = false;
    assert!(reg.handle_message("eval", &m).is_empty());
}

#[test]
fn all_fallbacks_continue() {
    let mut reg: CommandRegistry<Recorder, Recorder> = CommandRegistry::new("?");
    reg.add_fallback_handler(Recorder::new(Flow::Continue));
    reg.add_fallback_handler(Recorder::new(Flow::Continue));
    let calls = reg.handle_message("eval", &message("hello", "alice"));
    assert_eq!(handlers(&calls), vec![HandlerRef::Fallback(0), HandlerRef::Fallback(1)]);
    assert!(calls.iter().all(|c| c.flow == Flow::Continue));
}

#[test]
fn last_registration_for_a_name_wins() {
    let mut reg: CommandRegistry<Recorder, Recorder> = CommandRegistry::new("?");
    reg.set_named_handler("crate", Recorder::new(Flow::Continue));
    reg.set_named_handler("help", Recorder::new(Flow::Continue));
    reg.set_named_handler("crate", Recorder::new(Flow::Break));
    reg.add_fallback_handler(Recorder::new(Flow::Break));
    let calls = reg.handle_message("eval", &message("?crate serde", "#rust"));
    assert_eq!(handlers(&calls), vec![HandlerRef::Named(0)]);
    assert_eq!(calls[0].flow, Flow::Break);
}

#[test]
fn addressed_message_command_after_address() {
    let mut reg: CommandRegistry<Recorder, Recorder> = CommandRegistry::new("?");
    reg.set_named_handler("crate", Recorder::new(Flow::Break));
    let calls = reg.handle_message("eval", &message("eval: ?crate rand", "#rust"));
    assert_eq!(handlers(&calls), vec![HandlerRef::Named(0)]);
    assert_eq!(calls[0].body.as_str(), "?crate rand");
}
