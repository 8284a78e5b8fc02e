use crate::shared_str::{words, SharedStr};
use vstd::prelude::*;
use vstd::string::StringExecFns;

verus! {

/// The text that percent-encoding `s` for a URL path segment gives.
pub uninterp spec fn path_segment_encoded(s: Seq<char>) -> Seq<char>;

/// Whether `c` is kept as it is in a percent-encoded path segment: printable ASCII other
/// than space, `"`, `#`, `<`, `>`, `` ` ``, `?`, `{`, `}`, `%` and `/`.
pub open spec fn path_segment_safe(c: char) -> bool {
    0x20 < (c as u32) && (c as u32) < 0x7f && c != '"' && c != '#' && c != '<' && c != '>'
        && c != '`' && c != '?' && c != '{' && c != '}' && c != '%' && c != '/'
}

/// Relies on `url::percent_encoding::utf8_percent_encode` with `PATH_SEGMENT_ENCODE_SET`:
/// the result depends on the text alone, and a text whose characters all lie outside the
/// encode set comes back unchanged.
#[verifier::external_body]
fn encode_path_segment(s: &str) -> (r: String)
    ensures
        r@ == path_segment_encoded(s@),
        (forall|i: int| 0 <= i < s@.len() ==> path_segment_safe(#[trigger] s@[i])) ==> r@ == s@,
{
    url::percent_encoding::utf8_percent_encode(s, url::percent_encoding::PATH_SEGMENT_ENCODE_SET)
        .collect::<String>()
}

/// The crates.io API address of the crate called `name`.
pub fn crate_info_url(name: &str) -> (r: String)
    ensures
        r@ == "https://crates.io/api/v1/crates/"@ + path_segment_encoded(name@),
{
    let encoded = encode_path_segment(name);
    "https://crates.io/api/v1/crates/".to_owned().concat(encoded.as_str())
}

/// A crate as crates.io describes it.
pub struct Crate {
    pub id: String,
    pub name: String,
    pub description: String,
    pub max_version: String,
}

impl Crate {
    pub fn id(&self) -> (r: &str)
        ensures
            r@ == self.id@,
    {
        self.id.as_str()
    }

    pub fn name(&self) -> (r: &str)
        ensures
            r@ == self.name@,
    {
        self.name.as_str()
    }

    pub fn description(&self) -> (r: &str)
        ensures
            r@ == self.description@,
    {
        self.description.as_str()
    }

    pub fn max_version(&self) -> (r: &str)
        ensures
            r@ == self.max_version@,
    {
        self.max_version.as_str()
    }
}

/// What crates.io answers about one crate.
pub struct Info {
    pub krate: Crate,
}

impl Info {
    pub fn krate(&self) -> (r: &Crate)
        ensures
            r == &self.krate,
    {
        &self.krate
    }
}

/// `ws` joined with single spaces.
pub open spec fn join_words(ws: Seq<Seq<char>>) -> Seq<char>
    decreases ws.len(),
{
    if ws.len() == 0 {
        seq![]
    } else if ws.len() == 1 {
        ws[0]
    } else {
        join_words(ws.drop_last()) + " "@ + ws.last()
    }
}

/// `description` with every run of white space made one space, and none at either end.
pub fn normalize_whitespace(description: &str) -> (r: String)
    ensures
        r@ == join_words(words(description@)),
{
    let ws = SharedStr::from_text(description).split_whitespace();
    let ghost all = words(description@);
    let mut out = String::new();
    let mut i: usize = 0;
    while i < ws.len()
        invariant
            ws@.len() == all.len(),
            forall|m: int| 0 <= m < ws@.len() ==> (#[trigger] ws@[m])@ == all[m],
            i <= ws@.len(),
            out@ == join_words(all.subrange(0, i as int)),
        decreases ws@.len() - i,
    {
        let w = ws[i].as_str();
        proof {
            let s = all.subrange(0, i + 1);
            assert(s.drop_last() =~= all.subrange(0, i as int));
            assert(s.last() == all[i as int]);
            if i == 0 {
                assert(s =~= seq![all[0]]);
            }
        }
        if i == 0 {
            out = w;
        } else {
            out = out.concat(" ");
            out = out.concat(w.as_str());
        }
        i = i + 1;
    }
    proof {
        assert(all.subrange(0, all.len() as int) =~= all);
    }
    out
}

/// The one-line summary of a crate: name, version, description, and its crates.io and
/// docs.rs addresses.
pub open spec fn summary_spec(name: Seq<char>, version: Seq<char>, description: Seq<char>) -> Seq<
    char,
> {
    let u = path_segment_encoded(name);
    name + " ("@ + version + ") - "@ + join_words(words(description))
        + " -> https://crates.io/crates/"@ + u + " [https://docs.rs/crate/"@ + u + "]"@
}

pub fn crate_summary(krate: &Crate) -> (r: String)
    ensures
        r@ == summary_spec(krate.name@, krate.max_version@, krate.description@),
{
    let u = encode_path_segment(krate.name());
    let d = normalize_whitespace(krate.description());
    let out = krate.name().to_owned().concat(" (");
    let out = out.concat(krate.max_version());
    let out = out.concat(") - ");
    let out = out.concat(d.as_str());
    let out = out.concat(" -> https://crates.io/crates/");
    let out = out.concat(u.as_str());
    let out = out.concat(" [https://docs.rs/crate/");
    let out = out.concat(u.as_str());
    out.concat("]")
}

/// How asking crates.io about a crate went.
pub enum CrateLookup {
    Found(Info),
    /// crates.io knows no crate of that name.
    NotFound,
    /// The request failed otherwise.
    Failed,
}

/// The reply to a crate lookup for `crate_name`.
pub fn crate_reply(crate_name: &str, outcome: &CrateLookup) -> (r: String)
    ensures
        outcome matches CrateLookup::Found(info) ==> r@ == summary_spec(
            info.krate.name@,
            info.krate.max_version@,
            info.krate.description@,
        ),
        outcome is NotFound ==> r@ == "Crate '"@ + crate_name@ + "' does not exist."@,
        outcome is Failed ==> r@ == "Failed to get crate info for "@ + crate_name@,
{
    match outcome {
        CrateLookup::Found(info) => crate_summary(info.krate()),
        CrateLookup::NotFound => "Crate '".to_owned().concat(crate_name).concat("' does not exist."),
        CrateLookup::Failed => "Failed to get crate info for ".to_owned().concat(crate_name),
    }
}

/// The crate that a `crate` command asks about: its first argument, if any.
pub fn crate_name_arg(args: &[SharedStr]) -> (r: Option<SharedStr>)
    ensures
        args@.len() == 0 ==> r is None,
        args@.len() > 0 ==> (r matches Some(n) && n@ == args@[0]@),
{
    if args.len() == 0 {
        None
    } else {
        Some(args[0].clone())
    }
}

} // verus!
