use crate::command::{parse_command, texts, Command};
use crate::context::{context_of, inline_bodies, resolvable, Context, ContextView, InboundMessage};
use crate::shared_str::SharedStr;
use vstd::prelude::*;

verus! {

/// Most contexts (the message itself first, then its inline commands) tried for a
/// named handler once the message's own command did not end dispatch.
pub const MAX_CONTEXTS: usize = 3;

/// The outcome of a handler.
#[derive(PartialEq, Eq, Structural, Clone, Copy, Debug)]
pub enum Flow {
    /// The handler dealt with the context: stop trying handlers at this tier.
    Break,
    /// The handler declined: try the next one.
    Continue,
}

/// A handler that runs for a command of a given name.
pub trait NamedHandler {
    fn handle(&self, ctx: &Context, args: &[SharedStr]) -> Flow;
}

/// A handler that is tried on a message that no named handler dealt with.
pub trait FallbackHandler {
    fn handle(&self, ctx: &Context) -> Flow;
}

/// Which handler a call went to.
#[derive(PartialEq, Eq, Structural, Clone, Copy, Debug)]
pub enum HandlerRef {
    /// The named handler registered at this position.
    Named(usize),
    /// The fallback handler at this position of the fallback order.
    Fallback(usize),
}

/// One handler call that a dispatch made, with what the handler returned.
pub struct Call {
    pub handler: HandlerRef,
    /// The body of the context that the handler was given.
    pub body: SharedStr,
    pub args: Vec<SharedStr>,
    pub flow: Flow,
}

/// A handler call without its outcome: handler, context body and arguments.
pub type Planned = (HandlerRef, Seq<char>, Seq<Seq<char>>);

/// A call as characters, with its outcome.
pub struct CallView {
    pub handler: HandlerRef,
    pub body: Seq<char>,
    pub args: Seq<Seq<char>>,
    pub flow: Flow,
}

impl View for Call {
    type V = CallView;

    open spec fn view(&self) -> CallView {
        CallView { handler: self.handler, body: self.body@, args: texts(self.args@), flow: self.flow }
    }
}

pub open spec fn planned_of(c: CallView) -> Planned {
    (c.handler, c.body, c.args)
}

/// The calls of `t` without their outcomes.
pub open spec fn plans(t: Seq<CallView>) -> Seq<Planned> {
    t.map_values(|c: CallView| planned_of(c))
}

pub open spec fn call_views(t: Seq<Call>) -> Seq<CallView> {
    t.map_values(|c: Call| c@)
}

/// What a registry holds, apart from the handlers themselves.
pub struct RegistryView {
    pub prefix: Seq<char>,
    /// The names of the named handlers, by registration position; no name twice.
    pub names: Seq<Seq<char>>,
    pub fallback_count: nat,
}

/// Where `name` is registered.
pub open spec fn lookup(names: Seq<Seq<char>>, name: Seq<char>) -> Option<int> {
    if exists|i: int| 0 <= i < names.len() && names[i] == name {
        Some(choose|i: int| 0 <= i < names.len() && names[i] == name)
    } else {
        None
    }
}

/// The named-handler call that a context body leads to, if any.
pub open spec fn named_call(r: RegistryView, body: Seq<char>) -> Seq<Planned> {
    match parse_command(r.prefix, body) {
        Some((name, args)) => match lookup(r.names, name) {
            Some(i) => seq![(HandlerRef::Named(i as usize), body, args)],
            None => seq![],
        },
        None => seq![],
    }
}

/// The named-handler calls for a sequence of context bodies, in order.
pub open spec fn named_calls(r: RegistryView, bodies: Seq<Seq<char>>) -> Seq<Planned>
    decreases bodies.len(),
{
    if bodies.len() == 0 {
        seq![]
    } else {
        named_calls(r, bodies.drop_last()) + named_call(r, bodies.last())
    }
}

/// The bodies tried in the second tier: the message's own, then those of its inline
/// commands, at most `MAX_CONTEXTS` in all.
pub open spec fn candidate_bodies(top: ContextView) -> Seq<Seq<char>> {
    let all = seq![top.body] + inline_bodies(top);
    if all.len() > MAX_CONTEXTS {
        all.subrange(0, MAX_CONTEXTS as int)
    } else {
        all
    }
}

/// The first `k` fallback calls on the message's body.
pub open spec fn fallback_calls(top: ContextView, k: nat) -> Seq<Planned> {
    Seq::new(k, |j: int| (HandlerRef::Fallback(j as usize), top.body, Seq::<Seq<char>>::empty()))
}

/// Whether some call of `t` returned `Break`.
pub open spec fn any_break(t: Seq<CallView>) -> bool {
    exists|m: int| 0 <= m < t.len() && t[m].flow == Flow::Break
}

/// Whether `t` is a run of fallback calls that stopped at the first `Break`, or ran
/// every one of `n` fallbacks.
pub open spec fn fallback_run(top: ContextView, n: nat, t: Seq<CallView>) -> bool {
    &&& t.len() <= n
    &&& plans(t) == fallback_calls(top, t.len())
    &&& forall|m: int| 0 <= m < t.len() - 1 ==> (#[trigger] t[m]).flow == Flow::Continue
    &&& (t.len() == n || t[t.len() - 1].flow == Flow::Break)
}

/// Whether `t` is the run of handler calls that dispatching the context `top` makes
/// with registry `r`, given what each handler returned:
/// none for a meta message; then the call for the message's own command, which ends
/// dispatch where it breaks; then every call for the candidate bodies; then, where none
/// of those broke, the fallbacks in order up to the first that breaks.
pub open spec fn dispatched(r: RegistryView, top: ContextView, t: Seq<CallView>) -> bool {
    let first = named_call(r, top.body);
    let second = named_calls(r, candidate_bodies(top));
    let a = first.len() as int;
    let b = a + second.len();
    if top.is_meta_message {
        t.len() == 0
    } else if t.len() < a || plans(t.subrange(0, a)) != first {
        false
    } else if a == 1 && t[0].flow == Flow::Break {
        t.len() == 1
    } else if t.len() < b || plans(t.subrange(a, b)) != second {
        false
    } else if any_break(t.subrange(a, b)) {
        t.len() == b
    } else {
        fallback_run(top, r.fallback_count, t.subrange(b, t.len() as int))
    }
}

/// Named handlers under unique names, fallback handlers in order, and a command prefix.
pub struct CommandRegistry<N, F> {
    command_prefix: SharedStr,
    names: Vec<SharedStr>,
    named_handlers: Vec<N>,
    fallback_handlers: Vec<F>,
}

impl<N, F> View for CommandRegistry<N, F> {
    type V = RegistryView;

    closed spec fn view(&self) -> RegistryView {
        RegistryView {
            prefix: self.command_prefix@,
            names: texts(self.names@),
            fallback_count: self.fallback_handlers@.len(),
        }
    }
}

impl<N, F> CommandRegistry<N, F> {
    /// One handler per name, and no name twice.
    pub closed spec fn wf(&self) -> bool {
        &&& self.names@.len() == self.named_handlers@.len()
        &&& forall|i: int, j: int|
            0 <= i < j < self.names@.len() ==> (#[trigger] self.names@[i])@ != (#[trigger] self.names@[j])@
    }

    /// The named handler registered at position `i`.
    pub closed spec fn named_handler(&self, i: int) -> N {
        self.named_handlers@[i]
    }

    /// The fallback handler at position `j`.
    pub closed spec fn fallback_handler(&self, j: int) -> F {
        self.fallback_handlers@[j]
    }

}

impl<N: NamedHandler, F: FallbackHandler> CommandRegistry<N, F> {
    /// An empty registry with command prefix `command_prefix`.
    pub fn new(command_prefix: &str) -> (r: Self)
        ensures
            r@.prefix == command_prefix@,
            r@.names.len() == 0,
            r@.fallback_count == 0,
            r.wf(),
    {
        let r = CommandRegistry {
            command_prefix: SharedStr::from_text(command_prefix),
            names: Vec::new(),
            named_handlers: Vec::new(),
            fallback_handlers: Vec::new(),
        };
        assert(texts(r.names@) =~= seq![]);
        r
    }

    /// Registers `handler` under `name`, in place of a handler already registered under
    /// that name.
    pub fn set_named_handler(&mut self, name: &str, handler: N)
        requires
            old(self).wf(),
        ensures
            final(self).wf(),
            final(self)@.prefix == old(self)@.prefix,
            final(self)@.fallback_count == old(self)@.fallback_count,
            lookup(old(self)@.names, name@) is Some ==> final(self)@.names == old(self)@.names,
            lookup(old(self)@.names, name@) is None ==> final(self)@.names == old(self)@.names.push(name@),
            final(self).named_handler(lookup(final(self)@.names, name@)->0) == handler,
            forall|i: int|
                0 <= i < old(self)@.names.len() && old(self)@.names[i] != name@ ==> #[trigger] final(self).named_handler(i) == old(self).named_handler(i),
            forall|j: int|
                0 <= j < old(self)@.fallback_count ==> #[trigger] final(self).fallback_handler(j)
                    == old(self).fallback_handler(j),
    {
        let key = SharedStr::from_text(name);
        let ghost names0 = texts(self.names@);
        let n = self.names.len();
        let mut i: usize = 0;
        while i < n
            invariant
                key@ == name@,
                *self == *old(self),
                old(self).wf(),
                n == self.names@.len(),
                i <= n,
                names0 == texts(self.names@),
                forall|m: int| 0 <= m < i ==> names0[m] != key@,
            decreases n - i,
        {
            if self.names[i].same_text(&key) {
                self.named_handlers.set(i, handler);
                proof {
                    assert(names0[i as int] == key@);
                    assert forall|m: int| 0 <= m < names0.len() && names0[m] == key@ implies m == i by {
                        if m != i {
                            if m < i {
                                assert(names0[m] != key@);
                            } else {
                                assert((self.names@[i as int])@ != (self.names@[m])@);
                            }
                        }
                    }
                    assert(lookup(names0, key@) == Some(i as int));
                    assert(texts(self.names@) == names0);
                    assert(self.named_handlers@[i as int] == handler);
                    assert(self@.names == old(self)@.names);
                }
                return;
            }
            i = i + 1;
        }
        self.names.push(key);
        self.named_handlers.push(handler);
        proof {
            assert(texts(self.names@) =~= names0.push(key@));
            assert(lookup(names0, key@) is None);
            let nn = texts(self.names@);
            assert(nn[n as int] == key@);
            assert forall|m: int| 0 <= m < nn.len() && nn[m] == key@ implies m == n by {
                if m < n {
                    assert(nn[m] == names0[m]);
                }
            }
            assert(lookup(nn, key@) == Some(n as int));
            assert forall|a: int, b: int| 0 <= a < b < self.names@.len() implies (
            #[trigger] self.names@[a])@ != (#[trigger] self.names@[b])@ by {
                assert(self.names@[a]@ == nn[a]);
                assert(self.names@[b]@ == nn[b]);
                if b < n {
                    assert(old(self).names@[a] == self.names@[a]);
                    assert(old(self).names@[b] == self.names@[b]);
                } else {
                    assert(nn[a] == names0[a]);
                }
            }
        }
    }

    /// Adds `handler` last in the fallback order.
    pub fn add_fallback_handler(&mut self, handler: F)
        requires
            old(self).wf(),
        ensures
            final(self).wf(),
            final(self)@.prefix == old(self)@.prefix,
            final(self)@.names == old(self)@.names,
            final(self)@.fallback_count == old(self)@.fallback_count + 1,
            final(self).fallback_handler(old(self)@.fallback_count as int) == handler,
            forall|i: int|
                0 <= i < old(self)@.names.len() ==> #[trigger] final(self).named_handler(i) == old(self).named_handler(i),
            forall|j: int|
                0 <= j < old(self)@.fallback_count ==> #[trigger] final(self).fallback_handler(j)
                    == old(self).fallback_handler(j),
    {
        self.fallback_handlers.push(handler);
    }
}


proof fn lemma_lookup_at(v: Seq<SharedStr>, name: Seq<char>, i: int)
    requires
        0 <= i < v.len(),
        v[i]@ == name,
        forall|a: int, b: int| 0 <= a < b < v.len() ==> (#[trigger] v[a])@ != (#[trigger] v[b])@,
    ensures
        lookup(texts(v), name) == Some(i),
{
    let t = texts(v);
    assert(t[i] == name);
    assert forall|m: int| 0 <= m < t.len() && t[m] == name implies m == i by {
        if m < i {
            assert(v[m]@ != v[i]@);
        } else if m > i {
            assert(v[i]@ != v[m]@);
        }
    }
}

proof fn lemma_plans_concat(s1: Seq<CallView>, s2: Seq<CallView>)
    ensures
        plans(s1 + s2) == plans(s1) + plans(s2),
{
    assert(plans(s1 + s2) =~= plans(s1) + plans(s2));
}

proof fn lemma_named_calls_step(r: RegistryView, bodies: Seq<Seq<char>>, k: int)
    requires
        0 <= k < bodies.len(),
    ensures
        named_calls(r, bodies.subrange(0, k + 1)) == named_calls(r, bodies.subrange(0, k))
            + named_call(r, bodies[k]),
{
    let s = bodies.subrange(0, k + 1);
    assert(s.drop_last() =~= bodies.subrange(0, k));
    assert(s.last() == bodies[k]);
}

proof fn lemma_call_views_push(t: Seq<Call>, c: Call)
    ensures
        call_views(t.push(c)) == call_views(t).push(c@),
{
    assert(call_views(t.push(c)) =~= call_views(t).push(c@));
}

impl<N: NamedHandler, F: FallbackHandler> CommandRegistry<N, F> {
    /// Where `name` is registered.
    fn find(&self, name: &SharedStr) -> (r: Option<usize>)
        requires
            self.wf(),
        ensures
            r matches Some(i) ==> i < self@.names.len() && lookup(self@.names, name@) == Some(
                i as int,
            ),
            r is None ==> lookup(self@.names, name@) is None,
    {
        let n = self.names.len();
        let mut i: usize = 0;
        while i < n
            invariant
                self.wf(),
                n == self.names@.len(),
                i <= n,
                forall|m: int| 0 <= m < i ==> self@.names[m] != name@,
            decreases n - i,
        {
            if self.names[i].same_text(name) {
                proof {
                    lemma_lookup_at(self.names@, name@, i as int);
                }
                return Some(i);
            }
            i = i + 1;
        }
        None
    }

    /// Runs the named handler for the command of `ctx`, if there is one, and records
    /// the call in `trace`.
    fn try_named(&self, ctx: &Context, trace: &mut Vec<Call>) -> (r: Option<Flow>)
        requires
            self.wf(),
        ensures
            final(trace)@.len() == old(trace)@.len() + named_call(self@, ctx@.body).len(),
            final(trace)@.subrange(0, old(trace)@.len() as int) == old(trace)@,
            plans(
                call_views(final(trace)@).subrange(
                    old(trace)@.len() as int,
                    final(trace)@.len() as int,
                ),
            ) == named_call(self@, ctx@.body),
            r is Some <==> named_call(self@, ctx@.body).len() == 1,
            r matches Some(f) ==> f == final(trace)@[old(trace)@.len() as int].flow,
    {
        let ghost t0 = trace@;
        let cmd = Command::parse(&self.command_prefix, ctx.body());
        match cmd {
            None => {
                assert(trace@.subrange(0, t0.len() as int) =~= t0);
                assert(call_views(trace@).subrange(t0.len() as int, t0.len() as int) =~= seq![]);
                None
            },
            Some(c) => {
                match self.find(c.name()) {
                    None => {
                        assert(trace@.subrange(0, t0.len() as int) =~= t0);
                        assert(call_views(trace@).subrange(t0.len() as int, t0.len() as int)
                            =~= seq![]);
                        None
                    },
                    Some(i) => {
                        let flow = self.named_handlers[i].handle(ctx, c.args());
                        let call = Call {
                            handler: HandlerRef::Named(i),
                            body: ctx.body().clone(),
                            args: c.into_args(),
                            flow,
                        };
                        trace.push(call);
                        proof {
                            assert(trace@.subrange(0, t0.len() as int) =~= t0);
                            let tail = call_views(trace@).subrange(
                                t0.len() as int,
                                trace@.len() as int,
                            );
                            assert(tail =~= seq![call@]);
                            assert(plans(tail) =~= seq![planned_of(call@)]);
                        }
                        Some(flow)
                    },
                }
            },
        }
    }

    /// Dispatches the context `ctx`: nothing for a meta message; first the named handler
    /// of its own command, which ends dispatch where it returns `Break`; then the named
    /// handlers of the message and of its first inline commands, `MAX_CONTEXTS` contexts
    /// at most, all of them; then, where none of those returned `Break`, the fallback
    /// handlers in order up to the first that returns `Break`. The calls made, with
    /// what each handler returned, come back in order.
    pub fn dispatch(&self, ctx: &Context) -> (r: Vec<Call>)
        requires
            self.wf(),
        ensures
            dispatched(self@, ctx@, call_views(r@)),
    {
        let mut trace: Vec<Call> = Vec::new();
        if ctx.is_ctcp() {
            return trace;
        }
        let first = self.try_named(ctx, &mut trace);
        let a = trace.len();
        let ghost ta = call_views(trace@);
        let ghost first_plan = named_call(self@, ctx@.body);
        proof {
            assert(ta.subrange(0, a as int) =~= ta);
            assert(ta.subrange(0, 0) =~= seq![]);
        }
        match first {
            Some(Flow::Break) => {
                proof {
                    assert(call_views(trace@).subrange(0, 0) =~= seq![]);
                    assert(call_views(trace@).subrange(0, a as int) =~= call_views(trace@));
                }
                return trace;
            },
            _ => {},
        }
        assert(a == 1 ==> ta[0].flow != Flow::Break);
        let children = ctx.inline_contexts();
        let count: usize = if children.len() >= MAX_CONTEXTS - 1 {
            MAX_CONTEXTS
        } else {
            children.len() + 1
        };
        let ghost cands = candidate_bodies(ctx@);
        proof {
            assert(cands.len() == count);
            assert(call_views(trace@).subrange(a as int, a as int) =~= seq![]);
            assert(cands.subrange(0, 0) =~= seq![]);
        }
        let mut any = false;
        let mut k: usize = 0;
        while k < count
            invariant
                self.wf(),
                k <= count,
                count == cands.len(),
                cands == candidate_bodies(ctx@),
                children@.len() == inline_bodies(ctx@).len(),
                forall|m: int|
                    0 <= m < children@.len() ==> (#[trigger] children@[m])@ == (ContextView {
                        body: inline_bodies(ctx@)[m],
                        ..ctx@
                    }),
                a <= trace@.len(),
                call_views(trace@).subrange(0, a as int) == ta.subrange(0, a as int),
                ta.len() == a,
                plans(ta) == first_plan,
                first_plan == named_call(self@, ctx@.body),
                a == first_plan.len(),
                a == 1 ==> ta[0].flow != Flow::Break,
                !ctx@.is_meta_message,
                plans(call_views(trace@).subrange(a as int, trace@.len() as int)) == named_calls(
                    self@,
                    cands.subrange(0, k as int),
                ),
                any == any_break(call_views(trace@).subrange(a as int, trace@.len() as int)),
            decreases count - k,
        {
            let ghost t0 = trace@;
            let f = if k == 0 {
                self.try_named(ctx, &mut trace)
            } else {
                self.try_named(&children[k - 1], &mut trace)
            };
            let ghost body_k = if k == 0 {
                ctx@.body
            } else {
                children@[k - 1]@.body
            };
            proof {
                assert(body_k == cands[k as int]);
                let v0 = call_views(t0);
                let v1 = call_views(trace@);
                let mid = v0.subrange(a as int, t0.len() as int);
                let new = v1.subrange(t0.len() as int, trace@.len() as int);
                assert(v1.subrange(0, t0.len() as int) =~= v0) by {
                    assert(trace@.subrange(0, t0.len() as int) == t0);
                }
                assert(v1.subrange(a as int, trace@.len() as int) =~= mid + new);
                assert(v1.subrange(0, a as int) =~= v0.subrange(0, a as int));
                lemma_plans_concat(mid, new);
                lemma_named_calls_step(self@, cands, k as int);
                assert(cands.subrange(0, k + 1) =~= cands.subrange(0, (k + 1) as int));
                if new.len() == 1 {
                    assert(new[0] == v1[t0.len() as int]);
                }
                assert(any_break(mid + new) == (any_break(mid) || (f matches Some(
                    Flow::Break,
                )))) by {
                    if any_break(mid) {
                        let m = choose|m: int| 0 <= m < mid.len() && mid[m].flow == Flow::Break;
                        assert((mid + new)[m] == mid[m]);
                    }
                    if f matches Some(Flow::Break) {
                        assert((mid + new)[mid.len() as int] == new[0]);
                    }
                    if any_break(mid + new) {
                        let m = choose|m: int|
                            0 <= m < (mid + new).len() && (mid + new)[m].flow == Flow::Break;
                        if m >= mid.len() {
                            assert(new[m - mid.len()] == (mid + new)[m]);
                        } else {
                            assert(mid[m] == (mid + new)[m]);
                        }
                    }
                }
            }
            match f {
                Some(Flow::Break) => {
                    any = true;
                },
                _ => {},
            }
            k = k + 1;
        }
        proof {
            assert(cands.subrange(0, count as int) =~= cands);
            let t = call_views(trace@);
            assert(t.subrange(0, a as int) =~= ta);
            if a == 1 {
                assert(t[0] == t.subrange(0, a as int)[0]);
            }
        }
        if any {
            return trace;
        }
        let b = trace.len();
        let ghost tb = call_views(trace@);
        let ghost second = named_calls(self@, cands);
        proof {
            assert(tb.subrange(0, b as int) =~= tb);
        }
        let n = self.fallback_handlers.len();
        proof {
            assert(cands.subrange(0, count as int) =~= cands);
            assert(call_views(trace@).subrange(b as int, b as int) =~= seq![]);
            assert(fallback_calls(ctx@, 0) =~= seq![]);
        }
        let mut j: usize = 0;
        while j < n
            invariant
                n == self@.fallback_count,
                j <= n,
                trace@.len() == b + j,
                call_views(trace@).subrange(0, b as int) == tb.subrange(0, b as int),
                tb.len() == b,
                tb.subrange(0, b as int) == tb,
                a <= b,
                ta.len() == a,
                plans(ta) == named_call(self@, ctx@.body),
                a == named_call(self@, ctx@.body).len(),
                a == 1 ==> ta[0].flow != Flow::Break,
                !ctx@.is_meta_message,
                tb.subrange(0, a as int) == ta,
                second == named_calls(self@, candidate_bodies(ctx@)),
                b == a + second.len(),
                plans(tb.subrange(a as int, b as int)) == second,
                !any_break(tb.subrange(a as int, b as int)),
                plans(call_views(trace@).subrange(b as int, trace@.len() as int)) == fallback_calls(
                    ctx@,
                    j as nat,
                ),
                forall|m: int|
                    0 <= m < j ==> (#[trigger] call_views(trace@)[b + m]).flow == Flow::Continue,
            decreases n - j,
        {
            let ghost t0 = trace@;
            let flow = self.fallback_handlers[j].handle(ctx);
            let call = Call {
                handler: HandlerRef::Fallback(j),
                body: ctx.body().clone(),
                args: Vec::new(),
                flow,
            };
            trace.push(call);
            proof {
                lemma_call_views_push(t0, call);
                let v0 = call_views(t0);
                let v1 = call_views(trace@);
                assert(v1.subrange(0, b as int) =~= v0.subrange(0, b as int));
                assert(v1.subrange(b as int, trace@.len() as int) =~= v0.subrange(
                    b as int,
                    t0.len() as int,
                ).push(call@));
                lemma_plans_concat(v0.subrange(b as int, t0.len() as int), seq![call@]);
                assert(texts(call.args@) =~= seq![]);
                assert(fallback_calls(ctx@, (j + 1) as nat) =~= fallback_calls(ctx@, j as nat).push(
                    planned_of(call@),
                ));
                assert(plans(seq![call@]) =~= seq![planned_of(call@)]);
                assert(v0.subrange(b as int, t0.len() as int).push(call@) =~= v0.subrange(
                    b as int,
                    t0.len() as int,
                ) + seq![call@]);
                assert(plans(v1.subrange(b as int, trace@.len() as int)) == fallback_calls(
                    ctx@,
                    (j + 1) as nat,
                ));
                assert(v1[trace@.len() - 1] == call@);
                assert forall|m: int| 0 <= m < j implies (#[trigger] v1[b + m]).flow == Flow::Continue by {
                    assert(v1[b + m] == v0[b + m]);
                }
            }
            if flow == Flow::Break {
                proof {
                    self.lemma_dispatched_tail(ctx@, call_views(trace@), ta, tb, a as int, b as int);
                }
                return trace;
            }
            j = j + 1;
        }
        proof {
            self.lemma_dispatched_tail(ctx@, call_views(trace@), ta, tb, a as int, b as int);
        }
        trace
    }

    /// The last step of `dispatch`: the calls so far are the first tier `ta`, the second
    /// tier after it in `tb`, and a run of fallbacks.
    proof fn lemma_dispatched_tail(
        &self,
        top: ContextView,
        t: Seq<CallView>,
        ta: Seq<CallView>,
        tb: Seq<CallView>,
        a: int,
        b: int,
    )
        requires
            0 <= a <= b <= t.len(),
            ta.len() == a,
            tb.len() == b,
            !top.is_meta_message,
            plans(ta) == named_call(self@, top.body),
            a == named_call(self@, top.body).len(),
            a == 1 ==> ta[0].flow != Flow::Break,
            tb.subrange(0, a) == ta,
            t.subrange(0, b) == tb,
            b == a + named_calls(self@, candidate_bodies(top)).len(),
            plans(tb.subrange(a, b)) == named_calls(self@, candidate_bodies(top)),
            !any_break(tb.subrange(a, b)),
            plans(t.subrange(b, t.len() as int)) == fallback_calls(top, (t.len() - b) as nat),
            t.len() - b <= self@.fallback_count,
            forall|m: int| 0 <= m < t.len() - b - 1 ==> (#[trigger] t[b + m]).flow == Flow::Continue,
            t.len() - b == self@.fallback_count || (t.len() > b && t[t.len() - 1].flow == Flow::Break),
        ensures
            dispatched(self@, top, t),
    {
        assert(t.subrange(0, a) =~= ta) by {
            assert(t.subrange(0, a) =~= tb.subrange(0, a));
        }
        if a == 1 {
            assert(t[0] == ta[0]);
        }
        assert(t.subrange(a, b) =~= tb.subrange(a, b));
        let rest = t.subrange(b, t.len() as int);
        assert forall|m: int| 0 <= m < rest.len() - 1 implies (#[trigger] rest[m]).flow
            == Flow::Continue by {
            assert(rest[m] == t[b + m]);
        }
        if rest.len() > 0 {
            assert(rest[rest.len() - 1] == t[t.len() - 1]);
        }
        assert(plans(t.subrange(0, a)) == named_call(self@, top.body));
        assert(!any_break(t.subrange(a, b)));
        assert(fallback_run(top, self@.fallback_count, rest));
    }

    /// Handles one inbound message for a bot whose nickname is `current_nickname`:
    /// builds its context and dispatches it; no calls where no context can be built.
    pub fn handle_message(&self, current_nickname: &str, message: &InboundMessage) -> (r: Vec<
        Call,
    >)
        requires
            self.wf(),
        ensures
            !resolvable(*message) ==> r@.len() == 0,
            resolvable(*message) ==> dispatched(
                self@,
                context_of(current_nickname@, *message),
                call_views(r@),
            ),
    {
        match Context::new(current_nickname, message) {
            Some(ctx) => self.dispatch(&ctx),
            None => Vec::new(),
        }
    }
}


/// The named-handler calls for a run of bodies are at most one per body.
pub proof fn lemma_named_calls_len(r: RegistryView, bodies: Seq<Seq<char>>)
    ensures
        named_calls(r, bodies).len() <= bodies.len(),
    decreases bodies.len(),
{
    if bodies.len() > 0 {
        lemma_named_calls_len(r, bodies.drop_last());
    }
}

/// However many inline commands a message holds, the second tier of dispatch makes at
/// most `MAX_CONTEXTS` named-handler calls: the message's own and those of its first
/// inline commands.
pub proof fn law_second_tier_bounded(r: RegistryView, top: ContextView)
    ensures
        candidate_bodies(top).len() <= MAX_CONTEXTS,
        named_calls(r, candidate_bodies(top)).len() <= MAX_CONTEXTS,
        candidate_bodies(top).len() > 0 ==> candidate_bodies(top)[0] == top.body,
        forall|m: int|
            1 <= m < candidate_bodies(top).len() ==> #[trigger] candidate_bodies(top)[m]
                == inline_bodies(top)[m - 1],
{
    lemma_named_calls_len(r, candidate_bodies(top));
}

} // verus!
