use crate::command::texts;
use crate::context::{lines, split_lines};
use crate::shared_str::{char_is_whitespace, skip_ws, token_end, trim_start, SharedStr};
use vstd::prelude::*;
use vstd::string::StringExecFns;

verus! {

/// Where code is sent to be run.
pub const EXECUTE_URL: &'static str = "https://play.rust-lang.org/execute";

/// Where code and output are sent to be kept.
pub const GIST_URL: &'static str = "https://play.rust-lang.org/meta/gist/";

/// Most lines of output replied directly; more go to a paste.
pub const PREVIEW_LINES: usize = 2;

/// How the code is compiled.
#[derive(PartialEq, Eq, Structural, Clone, Copy, Debug)]
pub enum Mode {
    Debug,
    Release,
}

pub open spec fn mode_name(m: Mode) -> Seq<char> {
    match m {
        Mode::Debug => "debug"@,
        Mode::Release => "release"@,
    }
}

impl Mode {
    pub fn as_str(&self) -> (r: &'static str)
        ensures
            r@ == mode_name(*self),
    {
        match self {
            Mode::Debug => "debug",
            Mode::Release => "release",
        }
    }
}

/// What kind of crate the code is compiled as.
#[derive(PartialEq, Eq, Structural, Clone, Copy, Debug)]
pub enum CrateType {
    Bin,
}

/// Which compiler release runs the code.
#[derive(PartialEq, Eq, Structural, Clone, Copy, Debug)]
pub enum Channel {
    Stable,
    Beta,
    Nightly,
}

pub open spec fn channel_name(c: Channel) -> Seq<char> {
    match c {
        Channel::Stable => "stable"@,
        Channel::Beta => "beta"@,
        Channel::Nightly => "nightly"@,
    }
}

impl Channel {
    pub fn as_str(&self) -> (r: &'static str)
        ensures
            r@ == channel_name(*self),
    {
        match self {
            Channel::Stable => "stable",
            Channel::Beta => "beta",
            Channel::Nightly => "nightly",
        }
    }
}

/// A request to run code.
pub struct ExecuteRequest {
    code: String,
    channel: Channel,
    crate_type: CrateType,
    mode: Mode,
    tests: bool,
}

pub struct ExecuteRequestView {
    pub code: Seq<char>,
    pub channel: Channel,
    pub crate_type: CrateType,
    pub mode: Mode,
    pub tests: bool,
}

impl View for ExecuteRequest {
    type V = ExecuteRequestView;

    closed spec fn view(&self) -> ExecuteRequestView {
        ExecuteRequestView {
            code: self.code@,
            channel: self.channel,
            crate_type: self.crate_type,
            mode: self.mode,
            tests: self.tests,
        }
    }
}

impl ExecuteRequest {
    /// A request to run `code` as a binary on the stable channel in debug mode, without
    /// tests.
    pub fn new(code: String) -> (r: ExecuteRequest)
        ensures
            r@ == (ExecuteRequestView {
                code: code@,
                channel: Channel::Stable,
                crate_type: CrateType::Bin,
                mode: Mode::Debug,
                tests: false,
            }),
    {
        ExecuteRequest {
            code,
            channel: Channel::Stable,
            crate_type: CrateType::Bin,
            mode: Mode::Debug,
            tests: false,
        }
    }

    pub fn code(&self) -> (r: &str)
        ensures
            r@ == self@.code,
    {
        self.code.as_str()
    }

    pub fn channel(&self) -> (r: Channel)
        ensures
            r == self@.channel,
    {
        self.channel
    }

    pub fn set_channel(&mut self, channel: Channel)
        ensures
            final(self)@ == (ExecuteRequestView { channel, ..old(self)@ }),
    {
        self.channel = channel;
    }

    pub fn mode(&self) -> (r: Mode)
        ensures
            r == self@.mode,
    {
        self.mode
    }

    pub fn set_mode(&mut self, mode: Mode)
        ensures
            final(self)@ == (ExecuteRequestView { mode, ..old(self)@ }),
    {
        self.mode = mode;
    }

    pub fn crate_type(&self) -> (r: CrateType)
        ensures
            r == self@.crate_type,
    {
        self.crate_type
    }

    pub fn tests(&self) -> (r: bool)
        ensures
            r == self@.tests,
    {
        self.tests
    }
}

/// The outcome of running code.
pub struct ExecuteResponse {
    pub stderr: String,
    pub stdout: String,
    pub success: bool,
}

/// The compiler version of a channel.
pub struct Version {
    pub date: String,
    pub hash: String,
    pub version: String,
}

/// The options given before the code of a run request, and the code after them.
pub struct Flags {
    pub channel: Channel,
    pub mode: Mode,
    pub show_version: bool,
    pub bare: bool,
    /// A help word came before the code: usage help is asked for instead of a run.
    pub help: bool,
    pub code: SharedStr,
}

pub struct FlagsView {
    pub channel: Channel,
    pub mode: Mode,
    pub show_version: bool,
    pub bare: bool,
    pub help: bool,
    pub code: Seq<char>,
}

impl View for Flags {
    type V = FlagsView;

    open spec fn view(&self) -> FlagsView {
        FlagsView {
            channel: self.channel,
            mode: self.mode,
            show_version: self.show_version,
            bare: self.bare,
            help: self.help,
            code: self.code@,
        }
    }
}

pub open spec fn is_help_word(w: Seq<char>) -> bool {
    w == "help"@ || w == "h"@ || w == "-h"@ || w == "--help"@ || w == "--h"@
}

/// Reads the leading option words of `s` into `f`, stopping at the first word that is
/// no option (the code starts there) or at a help word.
pub open spec fn flags_from(s: Seq<char>, f: FlagsView) -> FlagsView
    decreases s.len(),
    via flags_from_decreases
{
    let t = trim_start(s);
    let w = t.subrange(0, token_end(t, 0));
    let rest = t.subrange(w.len() as int, t.len() as int);
    if w.len() == 0 {
        FlagsView { code: t, ..f }
    } else if w == "--stable"@ {
        flags_from(rest, FlagsView { channel: Channel::Stable, ..f })
    } else if w == "--beta"@ {
        flags_from(rest, FlagsView { channel: Channel::Beta, ..f })
    } else if w == "--nightly"@ {
        flags_from(rest, FlagsView { channel: Channel::Nightly, ..f })
    } else if w == "--version"@ || w == "VERSION"@ {
        flags_from(rest, FlagsView { show_version: true, ..f })
    } else if w == "--bare"@ || w == "--mini"@ {
        flags_from(rest, FlagsView { bare: true, ..f })
    } else if w == "--debug"@ {
        flags_from(rest, FlagsView { mode: Mode::Debug, ..f })
    } else if w == "--release"@ {
        flags_from(rest, FlagsView { mode: Mode::Release, ..f })
    } else if is_help_word(w) {
        FlagsView { help: true, code: t, ..f }
    } else {
        FlagsView { code: t, ..f }
    }
}

#[via_fn]
proof fn flags_from_decreases(s: Seq<char>, f: FlagsView) {
    crate::shared_str::lemma_skip_ws_bounds(s, 0);
    let t = trim_start(s);
    crate::shared_str::lemma_token_end_bounds(t, 0);
}

/// The options that a run request starts with: stable, debug, no version, not bare, no
/// help, unless a leading option word says otherwise.
pub open spec fn parse_flags_spec(s: Seq<char>) -> FlagsView {
    flags_from(
        s,
        FlagsView {
            channel: Channel::Stable,
            mode: Mode::Debug,
            show_version: false,
            bare: false,
            help: false,
            code: s,
        },
    )
}

/// Reads the leading option words of a run request: `--stable`, `--beta`, `--nightly`,
/// `--version` or `VERSION`, `--bare` or `--mini`, `--debug`, `--release`, and the help
/// words, which end the reading.
pub fn parse_flags(body: &SharedStr) -> (r: Flags)
    ensures
        r@ == parse_flags_spec(body@),
{
    let ghost init = FlagsView {
        channel: Channel::Stable,
        mode: Mode::Debug,
        show_version: false,
        bare: false,
        help: false,
        code: body@,
    };
    let mut f = Flags {
        channel: Channel::Stable,
        mode: Mode::Debug,
        show_version: false,
        bare: false,
        help: false,
        code: body.clone(),
    };
    let mut rest = body.clone();
    loop
        invariant
            flags_from(rest@, f@) == parse_flags_spec(body@),
        decreases rest@.len(),
    {
        let t = rest.trim_left();
        let w = t.first_word();
        proof {
            crate::shared_str::lemma_skip_ws_bounds(rest@, 0);
            crate::shared_str::lemma_token_end_bounds(t@, 0);
        }
        if w.len() == 0 {
            f.code = t;
            return f;
        }
        if w.eq_str("--stable") {
            f.channel = Channel::Stable;
        } else if w.eq_str("--beta") {
            f.channel = Channel::Beta;
        } else if w.eq_str("--nightly") {
            f.channel = Channel::Nightly;
        } else if w.eq_str("--version") || w.eq_str("VERSION") {
            f.show_version = true;
        } else if w.eq_str("--bare") || w.eq_str("--mini") {
            f.bare = true;
        } else if w.eq_str("--debug") {
            f.mode = Mode::Debug;
        } else if w.eq_str("--release") {
            f.mode = Mode::Release;
        } else if w.eq_str("help") || w.eq_str("h") || w.eq_str("-h") || w.eq_str("--help")
            || w.eq_str("--h") {
            f.help = true;
            f.code = t;
            return f;
        } else {
            f.code = t;
            return f;
        }
        rest = t.slice_from(w.len());
    }
}

/// Index just past the `]` that closes an attribute opened before `j`: the first `]`
/// or line break at or after `j` (or the end).
pub open spec fn attr_close(s: Seq<char>, j: int) -> int
    decreases s.len() - j,
{
    if j < 0 || j >= s.len() || s[j] == ']' || s[j] == '\n' {
        j
    } else {
        attr_close(s, j + 1)
    }
}

/// Whether an inner attribute `#![...]`, after white space, starts at `i`, and where it
/// ends.
pub open spec fn attr_at(s: Seq<char>, i: int) -> Option<int> {
    let j = skip_ws(s, i);
    if 0 <= i && j + 3 <= s.len() && s[j] == '#' && s[j + 1] == '!' && s[j + 2] == '['
        && attr_close(s, j + 3) < s.len() && s[attr_close(s, j + 3)] == ']' {
        Some(attr_close(s, j + 3) + 1)
    } else {
        None
    }
}

/// Length of the run of inner attributes (each after optional white space) that `s`
/// has from index `i` on.
pub open spec fn attrs_end(s: Seq<char>, i: int) -> int
    decreases s.len() - i,
{
    match attr_at(s, i) {
        Some(k) => if k <= s.len() && k > i {
            attrs_end(s, k)
        } else {
            i
        },
        None => i,
    }
}

/// Where the leading crate attributes of `s` end.
pub open spec fn crate_attrs_len(s: Seq<char>) -> int {
    attrs_end(s, 0)
}

/// Splits `code` into its leading crate attributes (`#![...]`, each after optional
/// white space) and the rest.
pub fn split_crate_attrs(code: &SharedStr) -> (r: (SharedStr, SharedStr))
    ensures
        0 <= crate_attrs_len(code@) <= code@.len(),
        r.0@ == code@.subrange(0, crate_attrs_len(code@)),
        r.1@ == code@.subrange(crate_attrs_len(code@), code@.len() as int),
{
    let ghost s = code@;
    let n = code.len();
    let mut i: usize = 0;
    loop
        invariant
            n == s.len(),
            s == code@,
            i <= n,
            attrs_end(s, i as int) == attrs_end(s, 0),
        ensures
            i <= n,
            attrs_end(s, 0) == i,
        decreases n - i,
    {
        let mut j: usize = i;
        while j < n
            invariant
                n == s.len(),
                s == code@,
                i <= j <= n,
                skip_ws(s, j as int) == skip_ws(s, i as int),
            ensures
                skip_ws(s, i as int) == j,
            decreases n - j,
        {
            if !char_is_whitespace(code.char_at(j)) {
                break;
            }
            j = j + 1;
        }
        if j >= n || n - j < 3 || code.char_at(j) != '#' || code.char_at(j + 1) != '!'
            || code.char_at(j + 2) != '[' {
            assert(attr_at(s, i as int) is None);
            break ;
        }
        let mut q: usize = j + 3;
        while q < n
            invariant
                n == s.len(),
                s == code@,
                j + 3 <= q <= n,
                attr_close(s, q as int) == attr_close(s, j + 3),
            ensures
                attr_close(s, j + 3) == q,
            decreases n - q,
        {
            let c = code.char_at(q);
            if c == ']' || c == '\n' {
                break;
            }
            q = q + 1;
        }
        if q >= n || code.char_at(q) != ']' {
            assert(attr_at(s, i as int) is None);
            break ;
        }
        assert(attr_at(s, i as int) == Some(q + 1));
        assert(attrs_end(s, i as int) == attrs_end(s, q + 1));
        i = q + 1;
    }
    (code.slice(0, i), code.slice_from(i))
}


/// Put before the code of a run that is not bare, after its crate attributes.
pub const CODE_HEAD: &'static str = "\n#![allow(unused)]\nfn main() {\n    println!(\"{:?}\", {\n";

/// Put after the code of a run that is not bare.
pub const CODE_TAIL: &'static str = "\n    });\n}\n";

/// The reply to a request for usage help.
pub const HELP_TEXT: &'static str = "Usage help can be found here: https://github.com/panicbit/playbot_ng/tree/master/README.md";

/// The program that a run request stands for: the code itself where bare, else the code
/// inside `main`, printed, with its crate attributes kept in front.
pub open spec fn program_of(f: FlagsView) -> Seq<char> {
    if f.bare {
        f.code
    } else {
        let k = crate_attrs_len(f.code);
        f.code.subrange(0, k) + CODE_HEAD@ + f.code.subrange(k, f.code.len() as int) + CODE_TAIL@
    }
}

/// The program to run for the options and code `f`.
pub fn build_code(f: &Flags) -> (r: String)
    ensures
        r@ == program_of(f@),
{
    if f.bare {
        return f.code.as_str();
    }
    let (attrs, rest) = split_crate_attrs(&f.code);
    let out = attrs.as_str().concat(CODE_HEAD);
    let rest = rest.as_str();
    let out = out.concat(rest.as_str());
    out.concat(CODE_TAIL)
}

/// What the run handler does with a context.
pub enum PlaygroundAction {
    /// The message was not directly addressed: leave it to other handlers.
    Decline,
    /// Reply with usage help.
    Help,
    /// Reply with the compiler version of a channel.
    ShowVersion(Channel),
    /// Run a program.
    Run(ExecuteRequest),
}

/// What the run handler does with a context whose body is `body`, directly addressed or
/// not.
pub open spec fn playground_action_spec(addressed: bool, body: Seq<char>) -> (bool, bool, Option<
    Channel,
>, Option<ExecuteRequestView>) {
    let f = parse_flags_spec(body);
    if !addressed {
        (true, false, None, None)
    } else if f.help {
        (false, true, None, None)
    } else if f.show_version {
        (false, false, Some(f.channel), None)
    } else {
        (
            false,
            false,
            None,
            Some(
                ExecuteRequestView {
                    code: program_of(f),
                    channel: f.channel,
                    crate_type: CrateType::Bin,
                    mode: f.mode,
                    tests: false,
                },
            ),
        )
    }
}

pub open spec fn action_view(a: PlaygroundAction) -> (bool, bool, Option<Channel>, Option<
    ExecuteRequestView,
>) {
    match a {
        PlaygroundAction::Decline => (true, false, None, None),
        PlaygroundAction::Help => (false, true, None, None),
        PlaygroundAction::ShowVersion(c) => (false, false, Some(c), None),
        PlaygroundAction::Run(r) => (false, false, None, Some(r@)),
    }
}

/// Decides what the run handler does with `ctx`: declines unless it was directly
/// addressed; else reads the leading options of its body, and gives help, the version,
/// or a run of the code with the chosen channel and mode.
pub fn playground_action(ctx: &crate::context::Context) -> (r: PlaygroundAction)
    ensures
        action_view(r) == playground_action_spec(ctx@.is_directly_addressed, ctx@.body),
{
    if !ctx.is_directly_addressed() {
        return PlaygroundAction::Decline;
    }
    let f = parse_flags(ctx.body());
    if f.help {
        return PlaygroundAction::Help;
    }
    if f.show_version {
        return PlaygroundAction::ShowVersion(f.channel);
    }
    let code = build_code(&f);
    let mut request = ExecuteRequest::new(code);
    request.set_channel(f.channel);
    request.set_mode(f.mode);
    PlaygroundAction::Run(request)
}

/// The output lines that are replied directly: from standard output on success, else
/// from standard error past its first line; `PREVIEW_LINES` at most.
pub open spec fn preview_spec(success: bool, stdout: Seq<char>, stderr: Seq<char>) -> Seq<
    Seq<char>,
> {
    let ls = lines(if success { stdout } else { stderr });
    let skip: int = if success { 0 } else { 1 };
    let rest = if ls.len() > skip { ls.subrange(skip, ls.len() as int) } else { seq![] };
    if rest.len() > PREVIEW_LINES {
        rest.subrange(0, PREVIEW_LINES as int)
    } else {
        rest
    }
}

/// Whether the output has more lines than are replied directly, so that all of it goes
/// to a paste.
pub open spec fn truncated_spec(success: bool, stdout: Seq<char>, stderr: Seq<char>) -> bool {
    lines(if success { stdout } else { stderr }).len() > PREVIEW_LINES
}

/// The lines of a run's output to reply directly, and whether the output is to be
/// pasted in full.
pub fn output_preview(resp: &ExecuteResponse) -> (r: (Vec<SharedStr>, bool))
    ensures
        texts(r.0@) == preview_spec(resp.success, resp.stdout@, resp.stderr@),
        r.1 == truncated_spec(resp.success, resp.stdout@, resp.stderr@),
{
    let output = if resp.success {
        SharedStr::from_text(resp.stdout.as_str())
    } else {
        SharedStr::from_text(resp.stderr.as_str())
    };
    let ls = split_lines(&output);
    let skip: usize = if resp.success {
        0
    } else {
        1
    };
    let ghost all = lines(output@);
    let ghost rest = if all.len() > skip {
        all.subrange(skip as int, all.len() as int)
    } else {
        seq![]
    };
    let ghost want = preview_spec(resp.success, resp.stdout@, resp.stderr@);
    let mut out: Vec<SharedStr> = Vec::new();
    let mut i: usize = skip;
    while i < ls.len() && i - skip < PREVIEW_LINES
        invariant
            texts(ls@) == all,
            skip <= i,
            skip <= 1,
            i <= ls@.len() || ls@.len() <= skip,
            ls@.len() <= skip ==> i == skip,
            ls@.len() == all.len(),
            want == (if rest.len() > PREVIEW_LINES {
                rest.subrange(0, PREVIEW_LINES as int)
            } else {
                rest
            }),
            rest == (if all.len() > skip {
                all.subrange(skip as int, all.len() as int)
            } else {
                seq![]
            }),
            out@.len() == i - skip,
            i - skip <= PREVIEW_LINES,
            forall|m: int| 0 <= m < out@.len() ==> (#[trigger] out@[m])@ == all[skip + m],
        decreases ls@.len() - i,
    {
        assert(ls@[i as int]@ == all[i as int]);
        out.push(ls[i].clone());
        i = i + 1;
    }
    proof {
        if all.len() > skip {
            assert(rest.len() == all.len() - skip);
        } else {
            assert(rest.len() == 0);
            assert(out@.len() == 0);
        }
        assert(texts(out@).len() == want.len());
        assert forall|m: int| 0 <= m < want.len() implies texts(out@)[m] == want[m] by {
            assert(rest[m] == all[skip + m]);
        }
        assert(texts(out@) =~= want);
    }
    (out, ls.len() > PREVIEW_LINES)
}

/// The reply that shows a compiler version: the version, then the first nine characters
/// of the commit hash and the date in parentheses.
pub open spec fn version_line_spec(v: Seq<char>, hash: Seq<char>, date: Seq<char>) -> Seq<char> {
    let h = if hash.len() > 9 {
        hash.subrange(0, 9)
    } else {
        hash
    };
    v + " ("@ + h + " "@ + date + ")"@
}

pub fn version_line(v: &Version) -> (r: String)
    ensures
        r@ == version_line_spec(v.version@, v.hash@, v.date@),
{
    let hash = SharedStr::from_text(v.hash.as_str());
    let h = if hash.len() > 9 {
        hash.slice(0, 9)
    } else {
        hash
    };
    let h = h.as_str();
    let out = v.version.as_str().to_owned().concat(" (");
    let out = out.concat(h.as_str());
    let out = out.concat(" ");
    let out = out.concat(v.date.as_str());
    out.concat(")")
}

/// Where the compiler version of `channel` is asked for.
pub fn version_url(channel: Channel) -> (r: String)
    ensures
        r@ == "https://play.rust-lang.org/meta/version/"@ + channel_name(channel),
{
    "https://play.rust-lang.org/meta/version/".to_owned().concat(channel.as_str())
}

/// Where a paste with id `gist` is opened with the channel and mode of its run.
pub fn paste_url(gist: &str, channel: Channel, mode: Mode) -> (r: String)
    ensures
        r@ == "https://play.rust-lang.org/?gist="@ + gist@ + "&version="@ + channel_name(channel)
            + "&mode="@ + mode_name(mode),
{
    let out = "https://play.rust-lang.org/?gist=".to_owned().concat(gist);
    let out = out.concat("&version=");
    let out = out.concat(channel.as_str());
    let out = out.concat("&mode=");
    out.concat(mode.as_str())
}

/// The reply that points at the full output.
pub fn truncated_reply(url: &str) -> (r: String)
    ensures
        r@ == "~~~ Output truncated; full output at "@ + url@,
{
    "~~~ Output truncated; full output at ".to_owned().concat(url)
}

/// What is pasted for a run whose output was cut short: the code, then its standard
/// output and standard error, each in a comment.
pub fn paste_text(code: &str, stdout: &str, stderr: &str) -> (r: String)
    ensures
        r@ == code@ + "\n\n/* stdout:\n"@ + stdout@ + "\n*/\n\n/* stderr:\n"@ + stderr@ + "\n*/\n"@,
{
    let out = code.to_owned().concat("\n\n/* stdout:\n");
    let out = out.concat(stdout);
    let out = out.concat("\n*/\n\n/* stderr:\n");
    let out = out.concat(stderr);
    out.concat("\n*/\n")
}

} // verus!
