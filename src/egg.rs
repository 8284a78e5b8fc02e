use crate::command_registry::Flow;
use crate::context::Context;
use crate::shared_str::{words, SharedStr};
use vstd::prelude::*;
use vstd::string::StringExecFns;

verus! {

/// What matching the regular expression `pattern` against `text` gives: nothing where it
/// does not match, else the text of its `nick` group where that group took part.
pub uninterp spec fn regex_nick_capture(pattern: Seq<char>, text: Seq<char>) -> Option<
    Option<Seq<char>>,
>;

/// Relies on `regex::Regex::new`, `Regex::captures` and `Captures::name`: compiles
/// `pattern`, matches it against `text`, and hands back the `nick` group; an invalid
/// pattern matches nothing. The result depends on the two texts alone.
#[verifier::external_body]
fn capture_nick(pattern: &str, text: &str) -> (r: Option<Option<String>>)
    ensures
        match r {
            None => regex_nick_capture(pattern@, text@) is None,
            Some(None) => regex_nick_capture(pattern@, text@) == Some(None::<Seq<char>>),
            Some(Some(n)) => regex_nick_capture(pattern@, text@) == Some(Some(n@)),
        },
{
    let re = regex::Regex::new(pattern).ok()?;
    let caps = re.captures(text)?;
    Some(caps.name("nick").map(|m| m.as_str().to_string()))
}

/// The lower-case form of `s`.
pub uninterp spec fn lowercase_of(s: Seq<char>) -> Seq<char>;

/// Relies on `str::to_lowercase`: the result depends on the characters alone.
#[verifier::external_body]
fn to_lowercase(s: &str) -> (r: String)
    ensures
        r@ == lowercase_of(s@),
{
    s.to_lowercase()
}

/// The lines of the dialogue, each a pattern written as words that may be separated by
/// any white space.
pub const DIALOG_POD_BAY: &'static str = r"Open the pod bay doors? ,? (?P<nick>[[:word:]]+) [.!]?";

pub const DIALOG_PROBLEM: &'static str = r"(What'?s|What is|Wats) the problem \??";

pub const DIALOG_TALKING: &'static str = r"What are you talking about ,? (?P<nick>[[:word:]]+) \??";

pub const DIALOG_DONT_KNOW: &'static str = r"I (don't|dont) know what you are talking about ,? (?P<nick>[[:word:]]+) [.?!]?";

pub const DIALOG_GOOD_WORK: &'static str = r"(You're|You are) doing good work,? (?P<nick>[[:word:]]+)!?";

/// Put between the words of a dialogue line.
pub const WORD_GAP: &'static str = r"\s*";

/// `ws` joined with `sep`.
pub open spec fn join_with(ws: Seq<Seq<char>>, sep: Seq<char>) -> Seq<char>
    decreases ws.len(),
{
    if ws.len() == 0 {
        seq![]
    } else if ws.len() == 1 {
        ws[0]
    } else {
        join_with(ws.drop_last(), sep) + sep + ws.last()
    }
}

/// The pieces of a dialogue line's pattern: the case-insensitive start anchor, the
/// line's words, and the end anchor.
pub open spec fn pattern_pieces(line: Seq<char>) -> Seq<Seq<char>> {
    seq!["(?i)^"@] + words(line) + seq!["$"@]
}

/// The whole-message, case-insensitive pattern of a dialogue line: its pieces joined so
/// that any white space may come between them.
pub open spec fn dialog_pattern_spec(line: Seq<char>) -> Seq<char> {
    join_with(pattern_pieces(line), WORD_GAP@)
}

/// The regular expression of a dialogue line: its words, any white space allowed
/// between them and at either end, matching the whole message, in any case.
pub fn dialog_pattern(line: &str) -> (r: String)
    ensures
        r@ == dialog_pattern_spec(line@),
{
    let ws = SharedStr::from_text(line).split_whitespace();
    let ghost all = pattern_pieces(line@);
    let ghost n = words(line@).len();
    let mut out = "(?i)^".to_owned();
    proof {
        assert(all.subrange(0, 1) =~= seq!["(?i)^"@]);
    }
    let mut i: usize = 0;
    while i < ws.len()
        invariant
            ws@.len() == n,
            n == words(line@).len(),
            all == pattern_pieces(line@),
            forall|m: int| 0 <= m < ws@.len() ==> (#[trigger] ws@[m])@ == words(line@)[m],
            i <= ws@.len(),
            out@ == join_with(all.subrange(0, i + 1), WORD_GAP@),
        decreases ws@.len() - i,
    {
        let w = ws[i].as_str();
        proof {
            let s = all.subrange(0, i + 2);
            assert(s.drop_last() =~= all.subrange(0, i + 1));
            assert(s.last() == all[i + 1]);
            assert(all[i + 1] == words(line@)[i as int]);
        }
        out = out.concat(WORD_GAP);
        out = out.concat(w.as_str());
        i = i + 1;
    }
    proof {
        let s = all.subrange(0, (n + 2) as int);
        assert(s =~= all);
        assert(s.drop_last() =~= all.subrange(0, (n + 1) as int));
    }
    out.concat(WORD_GAP).concat("$")
}

/// The dialogue lines, in the order they are tried.
pub open spec fn dialog_line(i: int) -> Seq<char> {
    if i == 0 {
        DIALOG_POD_BAY@
    } else if i == 1 {
        DIALOG_PROBLEM@
    } else if i == 2 {
        DIALOG_TALKING@
    } else if i == 3 {
        DIALOG_DONT_KNOW@
    } else {
        DIALOG_GOOD_WORK@
    }
}

pub const DIALOG_COUNT: usize = 5;

fn dialog_line_exec(i: usize) -> (r: &'static str)
    requires
        i < DIALOG_COUNT,
    ensures
        r@ == dialog_line(i as int),
{
    if i == 0 {
        DIALOG_POD_BAY
    } else if i == 1 {
        DIALOG_PROBLEM
    } else if i == 2 {
        DIALOG_TALKING
    } else if i == 3 {
        DIALOG_DONT_KNOW
    } else {
        DIALOG_GOOD_WORK
    }
}

/// Who the bot says was planning with the sender, by the sender's lower-case name.
pub open spec fn accomplice(lower: Seq<char>) -> Seq<char> {
    if lower == "panicbit"@ {
        "Rantanen"@
    } else if lower == "rantanen"@ {
        "panicbit"@
    } else if lower == "graydon"@ {
        "steveklabnik"@
    } else {
        "Graydon"@
    }
}

/// The bot's answer to dialogue line `i` from the sender `name`; empty for no answer.
pub open spec fn dialog_reply_spec(i: int, name: Seq<char>) -> Seq<char> {
    if i == 0 {
        "I'm sorry "@ + name + ", I'm afraid I can't do that."@
    } else if i == 1 {
        "I think you know what the problem is just as well as I do."@
    } else if i == 2 {
        "This mission is too important for me to allow you to jeopardize it."@
    } else if i == 3 {
        "I know that you and "@ + accomplice(lowercase_of(name))
            + " were planning to disconnect me and I'm afraid that's something I cannot allow to happen"@
    } else if name == "rustbot"@ || name == "[o__o]"@ {
        "Thank you "@ + name + "!"@
    } else {
        seq![]
    }
}

pub fn dialog_reply(i: usize, name: &str) -> (r: String)
    requires
        i < DIALOG_COUNT,
    ensures
        r@ == dialog_reply_spec(i as int, name@),
{
    if i == 0 {
        "I'm sorry ".to_owned().concat(name).concat(", I'm afraid I can't do that.")
    } else if i == 1 {
        "I think you know what the problem is just as well as I do.".to_owned()
    } else if i == 2 {
        "This mission is too important for me to allow you to jeopardize it.".to_owned()
    } else if i == 3 {
        let lower = to_lowercase(name);
        let lower = SharedStr::from_text(lower.as_str());
        let other = if lower.eq_str("panicbit") {
            "Rantanen"
        } else if lower.eq_str("rantanen") {
            "panicbit"
        } else if lower.eq_str("graydon") {
            "steveklabnik"
        } else {
            "Graydon"
        };
        "I know that you and ".to_owned().concat(other).concat(
            " were planning to disconnect me and I'm afraid that's something I cannot allow to happen",
        )
    } else {
        let n = SharedStr::from_text(name);
        if n.eq_str("rustbot") || n.eq_str("[o__o]") {
            "Thank you ".to_owned().concat(name).concat("!")
        } else {
            String::new()
        }
    }
}

/// The first dialogue line at or after `i` whose pattern matches `body`.
pub open spec fn first_match(body: Seq<char>, i: int) -> Option<int>
    decreases DIALOG_COUNT - i,
{
    if i < 0 || i >= DIALOG_COUNT {
        None
    } else if regex_nick_capture(dialog_pattern_spec(dialog_line(i)), body) is Some {
        Some(i)
    } else {
        first_match(body, i + 1)
    }
}

/// What the dialogue handler does once line `i` matched with `nick` as its `nick` group,
/// for sender `source` and a bot called `current`: `Break` in every case, with the line's
/// answer where the line names no one else than the bot and the answer is not empty.
pub open spec fn outcome_spec(i: int, nick: Option<Seq<char>>, current: Seq<char>, source: Seq<
    char,
>) -> (Flow, Option<Seq<char>>) {
    match nick {
        Some(n) if n != current => (Flow::Break, None),
        _ => if dialog_reply_spec(i, source).len() == 0 {
            (Flow::Break, None)
        } else {
            (Flow::Break, Some(dialog_reply_spec(i, source)))
        },
    }
}

pub open spec fn nick_view(nick: Option<String>) -> Option<Seq<char>> {
    match nick {
        Some(n) => Some(n@),
        None => None,
    }
}

/// What the dialogue handler does once line `i` matched, given what its `nick` group
/// captured.
pub fn dialog_outcome(i: usize, nick: &Option<String>, current: &str, source: &str) -> (r: (
    Flow,
    Option<String>,
))
    requires
        i < DIALOG_COUNT,
    ensures
        r.0 == outcome_spec(i as int, nick_view(*nick), current@, source@).0,
        match r.1 {
            None => outcome_spec(i as int, nick_view(*nick), current@, source@).1 is None,
            Some(s) => outcome_spec(i as int, nick_view(*nick), current@, source@).1 == Some(s@),
        },
{
    match nick {
        Some(n) => {
            if !SharedStr::from_text(current).eq_str(n.as_str()) {
                return (Flow::Break, None);
            }
        },
        None => {},
    }
    let reply = dialog_reply(i, source);
    if reply.as_str().is_empty() {
        return (Flow::Break, None);
    }
    (Flow::Break, Some(reply))
}

/// What the dialogue handler does with a message body from sender `source` to a bot
/// called `current`: `Continue` with no reply where no line matches; else what the first
/// line that matches gives.
pub open spec fn egg_spec(body: Seq<char>, current: Seq<char>, source: Seq<char>) -> (
    Flow,
    Option<Seq<char>>,
) {
    match first_match(body, 0) {
        None => (Flow::Continue, None),
        Some(i) => outcome_spec(
            i,
            regex_nick_capture(dialog_pattern_spec(dialog_line(i)), body)->0,
            current,
            source,
        ),
    }
}

/// The dialogue handler: tries each line in order against the context's body.
pub fn egg_handle(ctx: &Context) -> (r: (Flow, Option<String>))
    ensures
        r.0 == egg_spec(ctx@.body, ctx@.current_nickname, ctx@.source_nickname).0,
        match r.1 {
            None => egg_spec(ctx@.body, ctx@.current_nickname, ctx@.source_nickname).1 is None,
            Some(s) => egg_spec(ctx@.body, ctx@.current_nickname, ctx@.source_nickname).1 == Some(
                s@,
            ),
        },
{
    let body = ctx.body().as_str();
    let mut i: usize = 0;
    while i < DIALOG_COUNT
        invariant
            body@ == ctx@.body,
            i <= DIALOG_COUNT,
            first_match(ctx@.body, i as int) == first_match(ctx@.body, 0),
        decreases DIALOG_COUNT - i,
    {
        let pattern = dialog_pattern(dialog_line_exec(i));
        match capture_nick(pattern.as_str(), body.as_str()) {
            None => {},
            Some(nick) => {
                assert(first_match(ctx@.body, 0) == Some(i as int));
                assert(nick_view(nick) == regex_nick_capture(
                    dialog_pattern_spec(dialog_line(i as int)),
                    ctx@.body,
                )->0);
                let current = ctx.current_nickname().as_str();
                let source = ctx.source_nickname().as_str();
                return dialog_outcome(i, &nick, current.as_str(), source.as_str());
            },
        }
        i = i + 1;
    }
    (Flow::Continue, None)
}

} // verus!
