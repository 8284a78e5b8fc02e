use crate::command::texts;
use crate::shared_str::{trim, trim_start, utf8_len, SharedStr};
use vstd::prelude::*;

verus! {

/// Longest line, in bytes of UTF-8, that one outbound message may carry.
pub const MAX_LINE_LEN: usize = 2000;

/// Sent in place of a line that is longer than `MAX_LINE_LEN`.
pub const TOO_LONG_PLACEHOLDER: &'static str = "<<<message too long for irc>>>";

/// The marker character that wraps a meta (CTCP) message.
pub const META_MARKER: char = '\x01';

/// Whether a destination name is a shared (multi-party) channel rather than a person.
pub open spec fn is_channel_name(s: Seq<char>) -> bool {
    s.len() > 0 && (s[0] == '#' || s[0] == '&' || s[0] == '+' || s[0] == '!')
}

/// Whether a trimmed body is wrapped in a pair of meta markers.
pub open spec fn is_meta(b: Seq<char>) -> bool {
    b.len() >= 2 && b[0] == META_MARKER && b[b.len() - 1] == META_MARKER
}

/// The body with a wrapping pair of meta markers taken off.
pub open spec fn meta_stripped(b: Seq<char>) -> Seq<char> {
    if is_meta(b) {
        b.subrange(1, b.len() - 1)
    } else {
        b
    }
}

/// What follows the nickname at the start of `b`, leading white space taken off.
pub open spec fn after_nick(b: Seq<char>, nick: Seq<char>) -> Seq<char> {
    trim_start(b.subrange(nick.len() as int, b.len() as int))
}

/// Whether `b` starts with `nick` followed by `:` or `,` (white space may come between).
pub open spec fn has_address(b: Seq<char>, nick: Seq<char>) -> bool {
    &&& nick.len() <= b.len()
    &&& b.subrange(0, nick.len() as int) == nick
    &&& after_nick(b, nick).len() > 0
    &&& (after_nick(b, nick)[0] == ':' || after_nick(b, nick)[0] == ',')
}

/// The body with an address to `nick` taken off.
pub open spec fn unaddressed(b: Seq<char>, nick: Seq<char>) -> Seq<char> {
    if has_address(b, nick) {
        trim_start(after_nick(b, nick).drop_first())
    } else {
        b
    }
}

/// How replies reach their destination.
#[derive(PartialEq, Eq, Structural, Clone, Copy, Debug)]
pub enum ReplyKind {
    /// A notice to a shared channel.
    Notice,
    /// A direct message to one person.
    PrivateMessage,
}

pub open spec fn reply_kind_for(target: Seq<char>) -> ReplyKind {
    if is_channel_name(target) {
        ReplyKind::Notice
    } else {
        ReplyKind::PrivateMessage
    }
}

/// An inbound event from the chat transport, in plain values.
pub struct InboundMessage {
    /// Whether it is a user-visible text message.
    pub is_text: bool,
    pub body: String,
    /// The sender's full identity.
    pub source: Option<String>,
    pub source_nickname: Option<String>,
    /// Where a reply goes: a channel, or the sender.
    pub target: Option<String>,
}

/// What a context holds, as characters and flags.
pub struct ContextView {
    pub body: Seq<char>,
    pub is_directly_addressed: bool,
    pub is_meta_message: bool,
    pub reply_kind: ReplyKind,
    pub source: Seq<char>,
    pub source_nickname: Seq<char>,
    pub target: Seq<char>,
    pub current_nickname: Seq<char>,
}

/// Whether a context can be built from `m` at all.
pub open spec fn resolvable(m: InboundMessage) -> bool {
    m.is_text && m.source is Some && m.source_nickname is Some && m.target is Some
}

/// The context that `Context::new` builds from `m` for a bot called `nick`.
pub open spec fn context_of(nick: Seq<char>, m: InboundMessage) -> ContextView {
    let b0 = trim(m.body@);
    let b1 = meta_stripped(b0);
    let target = m.target->0@;
    ContextView {
        body: unaddressed(b1, nick),
        is_directly_addressed: has_address(b1, nick) || !is_channel_name(target),
        is_meta_message: is_meta(b0),
        reply_kind: reply_kind_for(target),
        source: m.source->0@,
        source_nickname: m.source_nickname->0@,
        target,
        current_nickname: nick,
    }
}

/// First index at or after `j` that holds `}` or a line break (or the end).
pub open spec fn close_from(s: Seq<char>, j: int) -> int
    decreases s.len() - j,
{
    if j < 0 || j >= s.len() || s[j] == '}' || s[j] == '\n' {
        j
    } else {
        close_from(s, j + 1)
    }
}

/// The interiors of the non-overlapping `{...}` spans of `s` from index `i` on,
/// leftmost first, each closed by the first `}` after its `{`, with no line break inside.
pub open spec fn spans_from(s: Seq<char>, i: int) -> Seq<Seq<char>>
    decreases s.len() - i,
    via spans_from_decreases
{
    if 0 <= i < s.len() {
        let q = close_from(s, i + 1);
        if s[i] == '{' && q < s.len() && s[q] == '}' {
            seq![s.subrange(i + 1, q)] + spans_from(s, q + 1)
        } else {
            spans_from(s, i + 1)
        }
    } else {
        seq![]
    }
}

/// The interiors of the inline `{...}` spans of `s`, in order.
pub open spec fn inline_spans(s: Seq<char>) -> Seq<Seq<char>> {
    spans_from(s, 0)
}

#[via_fn]
proof fn spans_from_decreases(s: Seq<char>, i: int) {
    if 0 <= i < s.len() {
        lemma_close_from_bounds(s, i + 1);
    }
}

pub proof fn lemma_close_from_bounds(s: Seq<char>, j: int)
    requires
        0 <= j <= s.len(),
    ensures
        j <= close_from(s, j) <= s.len(),
        forall|m: int| j <= m < close_from(s, j) ==> #[trigger] s[m] != '}' && s[m] != '\n',
    decreases s.len() - j,
{
    if j < s.len() && s[j] != '}' && s[j] != '\n' {
        lemma_close_from_bounds(s, j + 1);
    }
}

/// The bodies of the inline contexts of a context: none where it was directly addressed
/// or is a meta message.
pub open spec fn inline_bodies(c: ContextView) -> Seq<Seq<char>> {
    if c.is_directly_addressed || c.is_meta_message {
        seq![]
    } else {
        inline_spans(c.body)
    }
}

/// Index of the first line break at or after `i` (or the end).
pub open spec fn line_end(s: Seq<char>, i: int) -> int
    decreases s.len() - i,
{
    if i < 0 || i >= s.len() || s[i] == '\n' {
        i
    } else {
        line_end(s, i + 1)
    }
}

/// A line without one trailing carriage return.
pub open spec fn without_cr(l: Seq<char>) -> Seq<char> {
    if l.len() > 0 && l[l.len() - 1] == '\r' {
        l.subrange(0, l.len() - 1)
    } else {
        l
    }
}

/// The lines of `s` from index `i` on: split at each line break, a carriage return
/// before it dropped, no empty line after a final line break.
pub open spec fn lines_from(s: Seq<char>, i: int) -> Seq<Seq<char>>
    decreases s.len() - i,
    via lines_from_decreases
{
    if 0 <= i < s.len() {
        let k = line_end(s, i);
        if k < s.len() {
            seq![without_cr(s.subrange(i, k))] + lines_from(s, k + 1)
        } else {
            seq![without_cr(s.subrange(i, k))]
        }
    } else {
        seq![]
    }
}

pub open spec fn lines(s: Seq<char>) -> Seq<Seq<char>> {
    lines_from(s, 0)
}

#[via_fn]
proof fn lines_from_decreases(s: Seq<char>, i: int) {
    if 0 <= i < s.len() {
        lemma_line_end_bounds(s, i);
    }
}

pub proof fn lemma_line_end_bounds(s: Seq<char>, i: int)
    requires
        0 <= i <= s.len(),
    ensures
        i <= line_end(s, i) <= s.len(),
        line_end(s, i) < s.len() ==> s[line_end(s, i)] == '\n',
        forall|m: int| i <= m < line_end(s, i) ==> #[trigger] s[m] != '\n',
    decreases s.len() - i,
{
    if i < s.len() && s[i] != '\n' {
        lemma_line_end_bounds(s, i + 1);
    }
}

/// What is sent for one line of a reply.
pub open spec fn outbound_line(l: Seq<char>) -> Seq<char> {
    if utf8_len(l) > MAX_LINE_LEN {
        TOO_LONG_PLACEHOLDER@
    } else {
        l
    }
}

/// The lines that a reply with text `s` sends, in order.
pub open spec fn reply_plan(s: Seq<char>) -> Seq<Seq<char>> {
    lines(s).map_values(|l: Seq<char>| outbound_line(l))
}

/// One message to send to the transport.
pub struct Outgoing {
    pub kind: ReplyKind,
    pub target: SharedStr,
    pub text: SharedStr,
}

/// One normalized unit of conversation to dispatch against.
pub struct Context {
    body: SharedStr,
    is_directly_addressed: bool,
    is_meta_message: bool,
    reply_kind: ReplyKind,
    source: SharedStr,
    source_nickname: SharedStr,
    target: SharedStr,
    current_nickname: SharedStr,
}

impl Clone for Context {
    fn clone(&self) -> (r: Context)
        ensures
            r@ == self@,
    {
        self.with_body(self.body.clone())
    }
}

impl View for Context {
    type V = ContextView;

    closed spec fn view(&self) -> ContextView {
        ContextView {
            body: self.body@,
            is_directly_addressed: self.is_directly_addressed,
            is_meta_message: self.is_meta_message,
            reply_kind: self.reply_kind,
            source: self.source@,
            source_nickname: self.source_nickname@,
            target: self.target@,
            current_nickname: self.current_nickname@,
        }
    }
}

/// Whether `s` is a channel name: it starts with `#`, `&`, `+` or `!`.
pub fn is_channel(s: &SharedStr) -> (r: bool)
    ensures
        r == is_channel_name(s@),
{
    s.starts_with_char('#') || s.starts_with_char('&') || s.starts_with_char('+')
        || s.starts_with_char('!')
}

/// The lines of `message`, in order, each on the same buffer.
pub fn split_lines(message: &SharedStr) -> (r: Vec<SharedStr>)
    ensures
        texts(r@) == lines(message@),
{
    let ghost s = message@;
    let ghost all = lines(s);
    let n = message.len();
    let mut out: Vec<SharedStr> = Vec::new();
    let mut i: usize = 0;
    while i < n
        invariant
            n == s.len(),
            s == message@,
            i <= n,
            out@.len() + lines_from(s, i as int).len() == all.len(),
            forall|m: int| 0 <= m < out@.len() ==> (#[trigger] out@[m])@ == all[m],
            forall|m: int|
                0 <= m < lines_from(s, i as int).len() ==> #[trigger] lines_from(s, i as int)[m]
                    == all[out@.len() + m],
        decreases n - i,
    {
        let i0 = i;
        let mut k: usize = i;
        while k < n
            invariant
                n == s.len(),
                s == message@,
                i0 <= k <= n,
                line_end(s, k as int) == line_end(s, i0 as int),
            ensures
                line_end(s, i0 as int) == k,
            decreases n - k,
        {
            if message.char_at(k) == '\n' {
                break;
            }
            k = k + 1;
        }
        let mut e = k;
        if e > i && message.char_at(e - 1) == '\r' {
            e = e - 1;
        }
        let line = message.slice(i, e);
        proof {
            let ls = lines_from(s, i0 as int);
            if k < n {
                assert(ls == seq![without_cr(s.subrange(i0 as int, k as int))] + lines_from(
                    s,
                    k + 1,
                ));
            } else {
                assert(lines_from(s, k + 1) =~= seq![]);
                assert(ls =~= seq![without_cr(s.subrange(i0 as int, k as int))] + lines_from(
                    s,
                    k + 1,
                ));
            }
            assert(ls[0] == without_cr(s.subrange(i0 as int, k as int)));
            assert(without_cr(s.subrange(i0 as int, k as int)) =~= s.subrange(
                i0 as int,
                e as int,
            ));
            assert forall|m: int| 0 <= m < lines_from(s, k + 1).len() implies #[trigger] lines_from(
                s,
                k + 1,
            )[m] == all[out@.len() + 1 + m] by {
                assert(lines_from(s, k + 1)[m] == ls[m + 1]);
            }
        }
        out.push(line);
        if k == n {
            i = n;
        } else {
            i = k + 1;
        }
    }
    proof {
        assert(lines_from(s, n as int) =~= seq![]);
        assert(texts(out@) =~= all);
    }
    out
}

/// The lines that a reply with text `message` sends, in order, each too long line
/// replaced by the placeholder.
pub fn plan_reply(message: &SharedStr) -> (r: Vec<SharedStr>)
    ensures
        r@.len() == reply_plan(message@).len(),
        forall|m: int| 0 <= m < r@.len() ==> (#[trigger] r@[m])@ == reply_plan(message@)[m],
{
    let ls = split_lines(message);
    let mut out: Vec<SharedStr> = Vec::new();
    let mut i: usize = 0;
    while i < ls.len()
        invariant
            texts(ls@) == lines(message@),
            i <= ls@.len(),
            out@.len() == i,
            forall|m: int| 0 <= m < i ==> (#[trigger] out@[m])@ == reply_plan(message@)[m],
        decreases ls@.len() - i,
    {
        assert(ls@[i as int]@ == lines(message@)[i as int]);
        let line = if ls[i].utf8_len_exceeds(MAX_LINE_LEN) {
            SharedStr::from_text(TOO_LONG_PLACEHOLDER)
        } else {
            ls[i].clone()
        };
        out.push(line);
        i = i + 1;
    }
    out
}

impl Context {
    /// The buffer that the body is a window into.
    pub closed spec fn body_buffer(&self) -> Seq<char> {
        self.body.buffer()
    }

    /// Builds the context of an inbound message for a bot whose nickname is
    /// `current_nickname`; nothing where the message is not a text message or its sender
    /// or reply target is unknown.
    pub fn new(current_nickname: &str, message: &InboundMessage) -> (r: Option<Context>)
        ensures
            r is Some <==> resolvable(*message),
            r matches Some(c) ==> c@ == context_of(current_nickname@, *message),
    {
        if !message.is_text {
            return None;
        }
        let source = match &message.source {
            Some(s) => SharedStr::from_text(s.as_str()),
            None => return None,
        };
        let source_nickname = match &message.source_nickname {
            Some(s) => SharedStr::from_text(s.as_str()),
            None => return None,
        };
        let target = match &message.target {
            Some(s) => SharedStr::from_text(s.as_str()),
            None => return None,
        };
        let nick = SharedStr::from_text(current_nickname);
        let ghost nk = nick@;
        let mut body = SharedStr::from_text(message.body.as_str()).trim();
        let ghost b0 = body@;
        let n = body.len();
        let is_meta_message = n >= 2 && body.char_at(0) == META_MARKER && body.char_at(n - 1)
            == META_MARKER;
        if is_meta_message {
            body = body.slice(1, n - 1);
        }
        let ghost b1 = body@;
        assert(b1 == meta_stripped(b0));
        let mut addressed = false;
        if body.starts_with(&nick) {
            let rest = body.slice_from(nick.len()).trim_left();
            assert(rest@ == after_nick(b1, nk));
            if rest.starts_with_char(':') || rest.starts_with_char(',') {
                body = rest.slice_from(1).trim_left();
                addressed = true;
                assert(rest@.subrange(1, rest@.len() as int) =~= rest@.drop_first());
            }
        }
        assert(addressed == has_address(b1, nk));
        assert(body@ == unaddressed(b1, nk));
        let channel = is_channel(&target);
        let reply_kind = if channel {
            ReplyKind::Notice
        } else {
            ReplyKind::PrivateMessage
        };
        let c = Context {
            body,
            is_directly_addressed: addressed || !channel,
            is_meta_message,
            reply_kind,
            source,
            source_nickname,
            target,
            current_nickname: nick,
        };
        assert(c@ == context_of(current_nickname@, *message));
        Some(c)
    }

    pub fn body(&self) -> (r: &SharedStr)
        ensures
            r@ == self@.body,
    {
        &self.body
    }

    /// Whether the message was aimed directly at the bot: sent privately, or begun
    /// with the bot's name followed by `:` or `,`.
    pub fn is_directly_addressed(&self) -> (r: bool)
        ensures
            r == self@.is_directly_addressed,
    {
        self.is_directly_addressed
    }

    /// Whether the message was a meta (CTCP) message.
    pub fn is_ctcp(&self) -> (r: bool)
        ensures
            r == self@.is_meta_message,
    {
        self.is_meta_message
    }

    pub fn reply_kind(&self) -> (r: ReplyKind)
        ensures
            r == self@.reply_kind,
    {
        self.reply_kind
    }

    pub fn source(&self) -> (r: &SharedStr)
        ensures
            r@ == self@.source,
    {
        &self.source
    }

    pub fn source_nickname(&self) -> (r: &SharedStr)
        ensures
            r@ == self@.source_nickname,
    {
        &self.source_nickname
    }

    pub fn target(&self) -> (r: &SharedStr)
        ensures
            r@ == self@.target,
    {
        &self.target
    }

    pub fn current_nickname(&self) -> (r: &SharedStr)
        ensures
            r@ == self@.current_nickname,
    {
        &self.current_nickname
    }

    /// The messages that replying with `message` sends: one per line, to this
    /// context's target, by this context's reply kind, each too long line replaced by
    /// the placeholder.
    pub fn reply(&self, message: &str) -> (r: Vec<Outgoing>)
        ensures
            r@.len() == reply_plan(message@).len(),
            forall|m: int|
                0 <= m < r@.len() ==> (#[trigger] r@[m]).text@ == reply_plan(message@)[m]
                    && r@[m].target@ == self@.target && r@[m].kind == self@.reply_kind,
    {
        let lines = plan_reply(&SharedStr::from_text(message));
        let mut out: Vec<Outgoing> = Vec::new();
        let mut i: usize = 0;
        while i < lines.len()
            invariant
                i <= lines@.len(),
                lines@.len() == reply_plan(message@).len(),
                forall|m: int| 0 <= m < lines@.len() ==> (#[trigger] lines@[m])@ == reply_plan(message@)[m],
                out@.len() == i,
                forall|m: int|
                    0 <= m < i ==> (#[trigger] out@[m]).text@ == reply_plan(message@)[m]
                        && out@[m].target@ == self@.target && out@[m].kind == self@.reply_kind,
            decreases lines@.len() - i,
        {
            out.push(
                Outgoing { kind: self.reply_kind, target: self.target.clone(), text: lines[i].clone() },
            );
            i = i + 1;
        }
        out
    }

    /// A copy of this context with `body` as its body.
    fn with_body(&self, body: SharedStr) -> (r: Context)
        ensures
            r@ == (ContextView { body: body@, ..self@ }),
            r.body_buffer() == body.buffer(),
    {
        Context {
            body,
            is_directly_addressed: self.is_directly_addressed,
            is_meta_message: self.is_meta_message,
            reply_kind: self.reply_kind,
            source: self.source.clone(),
            source_nickname: self.source_nickname.clone(),
            target: self.target.clone(),
            current_nickname: self.current_nickname.clone(),
        }
    }

    /// The contexts of the inline `{...}` commands in this context's body, in order: each
    /// a copy of this context with a span's interior as its body, on the same buffer.
    /// None where this context was directly addressed or is a meta message.
    pub fn inline_contexts(&self) -> (r: Vec<Context>)
        ensures
            r@.len() == inline_bodies(self@).len(),
            forall|m: int|
                0 <= m < r@.len() ==> (#[trigger] r@[m])@ == (ContextView {
                    body: inline_bodies(self@)[m],
                    ..self@
                }),
            forall|m: int| 0 <= m < r@.len() ==> (#[trigger] r@[m]).body_buffer() == self.body_buffer(),
    {
        let mut out: Vec<Context> = Vec::new();
        if self.is_directly_addressed || self.is_meta_message {
            return out;
        }
        let ghost s = self.body@;
        let ghost all = inline_spans(s);
        let n = self.body.len();
        let mut i: usize = 0;
        while i < n
            invariant
                n == s.len(),
                s == self.body@,
                !self@.is_directly_addressed,
                !self@.is_meta_message,
                i <= n,
                out@.len() + spans_from(s, i as int).len() == all.len(),
                forall|m: int|
                    0 <= m < out@.len() ==> (#[trigger] out@[m])@ == (ContextView {
                        body: all[m],
                        ..self@
                    }),
                forall|m: int| 0 <= m < out@.len() ==> (#[trigger] out@[m]).body_buffer() == self.body_buffer(),
                forall|m: int|
                    0 <= m < spans_from(s, i as int).len() ==> #[trigger] spans_from(s, i as int)[m]
                        == all[out@.len() + m],
            decreases n - i,
        {
            let i0 = i;
            let mut q: usize = i + 1;
            while q < n
                invariant
                    n == s.len(),
                    s == self.body@,
                    i0 < q <= n,
                    close_from(s, q as int) == close_from(s, i0 + 1),
                ensures
                    close_from(s, i0 + 1) == q,
                decreases n - q,
            {
                let c = self.body.char_at(q);
                if c == '}' || c == '\n' {
                    break;
                }
                q = q + 1;
            }
            if self.body.char_at(i) == '{' && q < n && self.body.char_at(q) == '}' {
                let child = self.with_body(self.body.slice(i + 1, q));
                proof {
                    let sp = spans_from(s, i0 as int);
                    assert(sp == seq![s.subrange(i0 + 1, q as int)] + spans_from(s, q + 1));
                    assert(sp[0] == s.subrange(i0 + 1, q as int));
                    assert forall|m: int| 0 <= m < spans_from(s, q + 1).len() implies #[trigger] spans_from(
                        s,
                        q + 1,
                    )[m] == all[out@.len() + 1 + m] by {
                        assert(spans_from(s, q + 1)[m] == sp[m + 1]);
                    }
                }
                out.push(child);
                i = q + 1;
            } else {
                i = i + 1;
            }
        }
        proof {
            assert(spans_from(s, n as int) =~= seq![]);
        }
        out
    }
}

} // verus!
