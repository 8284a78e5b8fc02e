use playbot::context::{Context, InboundMessage};
use playbot::cratesio::{
    crate_info_url, crate_name_arg, crate_reply, crate_summary, normalize_whitespace, Crate,
    CrateLookup, Info,
};
use playbot::playground::{
    build_code, output_preview, parse_flags, paste_text, paste_url, playground_action,
    split_crate_attrs, truncated_reply, version_line, version_url, Channel, CrateType,
    ExecuteRequest, ExecuteResponse, Mode, PlaygroundAction, Version, CODE_HEAD, CODE_TAIL,
};
use playbot::SharedStr;

fn krate(name: &str, description: &str) -> Crate {
    Crate {
        id: name.to_string(),
        name: name.to_string(),
        description: description.to_string(),
        max_version: "1.0.0".to_string(),
    }
}

fn private(body: &str) -> Context {
    let m = InboundMessage {
        is_text: true,
        body: body.to_string(),
        source: Some("alice!a@example.org".to_string()),
        source_nickname: Some("alice".to_string()),
        target: Some("alice".to_string()),
    };
    Context::new("eval", &m).unwrap()
}

#[test]
fn mode_and_channel_names() {
    assert_eq!(Mode::Debug.as_str(), "debug");
    assert_eq!(Mode::Release.as_str(), "release");
    assert_eq!(Channel::Stable.as_str(), "stable");
    assert_eq!(Channel::Beta.as_str(), "beta");
    assert_eq!(Channel::Nightly.as_str(), "nightly");
}

#[test]
fn execute_request_defaults_and_setters() {
    let mut r = ExecuteRequest::new("fn main() {}".to_string());
    assert_eq!(r.code(), "fn main() {}");
    assert_eq!(r.channel(), Channel::Stable);
    assert_eq!(r.mode(), Mode::Debug);
    assert_eq!(r.crate_type(), CrateType::Bin);
    assert!(!r.tests());
    r.set_channel(Channel::Nightly);
    r.set_mode(Mode::Release);
    assert_eq!(r.channel(), Channel::Nightly);
    assert_eq!(r.mode(), Mode::Release);
}

#[test]
fn flags_before_code_are_read() {
    let f = parse_flags(&SharedStr::from_text("--nightly --release --bare  fn main() {}"));
    assert_eq!(f.channel, Channel::Nightly);
    assert_eq!(f.mode, Mode::Release);
    assert!(f.bare);
    assert!(!f.show_version);
    assert!(!f.help);
    assert_eq!(f.code.as_str(), "fn main() {}");
}

#[test]
fn flags_stop_at_first_code_word() {
    let f = parse_flags(&SharedStr::from_text("1 + 1 --beta"));
    assert_eq!(f.channel, Channel::Stable);
    assert_eq!(f.code.as_str(), "1 + 1 --beta");
    let v = parse_flags(&SharedStr::from_text("VERSION --beta"));
    assert!(v.show_version);
    assert_eq!(v.channel, Channel::Beta);
    assert_eq!(v.code.as_str(), "");
    let h = parse_flags(&SharedStr::from_text("--beta --help --nightly"));
    assert!(h.help);
    assert_eq!(h.channel, Channel::Beta);
}

#[test]
fn crate_attributes_are_split_off() {
    let (a, r) = split_crate_attrs(&SharedStr::from_text(" #![feature(x)]\n#![allow(y)] let z = 1;"));
    assert_eq!(a.as_str(), " #![feature(x)]\n#![allow(y)]");
    assert_eq!(r.as_str(), " let z = 1;");
    let (a, r) = split_crate_attrs(&SharedStr::from_text("#![broken\n] 1"));
    assert_eq!(a.as_str(), "");
    assert_eq!(r.as_str(), "#![broken\n] 1");
}

#[test]
fn code_is_wrapped_unless_bare() {
    let f = parse_flags(&SharedStr::from_text("#![feature(x)] 1 + 1"));
    assert_eq!(build_code(&f), format!("#![feature(x)]{} 1 + 1{}", CODE_HEAD, CODE_TAIL));
    let b = parse_flags(&SharedStr::from_text("--bare fn main() {}"));
    assert_eq!(build_code(&b), "fn main() {}");
}

#[test]
fn playground_decisions() {
    let m = InboundMessage {
        is_text: true,
        body: "1 + 1".to_string(),
        source: Some("a".to_string()),
        source_nickname: Some("a".to_string()),
        target: Some("#rust".to_string()),
    };
    let chan = Context::new("eval", &m).unwrap();
    assert!(matches!(playground_action(&chan), PlaygroundAction::Decline));
    assert!(matches!(playground_action(&private("--help")), PlaygroundAction::Help));
    assert!(matches!(
        playground_action(&private("--beta --version")),
        PlaygroundAction::ShowVersion(Channel::Beta)
    ));
    match playground_action(&private("--release --bare fn main() {}")) {
        PlaygroundAction::Run(r) => {
            assert_eq!(r.code(), "fn main() {}");
            assert_eq!(r.mode(), Mode::Release);
            assert_eq!(r.channel(), Channel::Stable);
        }
        _ => panic!("expected a run"),
    }
}

#[test]
fn output_preview_of_success_and_failure() {
    let ok = ExecuteResponse { stdout: "a\nb\nc\n".to_string(), stderr: "warn".to_string(), success: true };
    let (lines, more) = output_preview(&ok);
    let lines: Vec<String> = lines.iter().map(|l| l.as_str()).collect();
    assert_eq!(lines, vec!["a", "b"]);
    assert!(more);
    let err = ExecuteResponse {
        stdout: String::new(),
        stderr: "Compiling\nerror: x\n".to_string(),
        success: false,
    };
    let (lines, more) = output_preview(&err);
    let lines: Vec<String> = lines.iter().map(|l| l.as_str()).collect();
    assert_eq!(lines, vec!["error: x"]);
    assert!(!more);
    let empty = ExecuteResponse { stdout: String::new(), stderr: String::new(), success: false };
    let (lines, more) = output_preview(&empty);
    assert!(lines.is_empty());
    assert!(!more);
}

#[test]
fn version_and_urls() {
    let v = Version {
        date: "2018-05-01".to_string(),
        hash: "0123456789abcdef".to_string(),
        version: "rustc 1.26.0".to_string(),
    };
    assert_eq!(version_line(&v), "rustc 1.26.0 (012345678 2018-05-01)");
    assert_eq!(version_url(Channel::Beta), "https://play.rust-lang.org/meta/version/beta");
    assert_eq!(
        paste_url("abc", Channel::Nightly, Mode::Release),
        "https://play.rust-lang.org/?gist=abc&version=nightly&mode=release"
    );
    assert_eq!(truncated_reply("u"), "~~~ Output truncated; full output at u");
    assert_eq!(paste_text("c", "o", "e"), "c\n\n/* stdout:\no\n*/\n\n/* stderr:\ne\n*/\n");
}

#[test]
fn crate_url_is_percent_encoded() {
    assert_eq!(crate_info_url("serde"), "https://crates.io/api/v1/crates/serde");
    assert_eq!(crate_info_url("a b/c"), "https://crates.io/api/v1/crates/a%20b%2Fc");
}

#[test]
fn crate_summary_normalizes_description() {
    let k = krate("serde", "  A generic\n serialization   framework ");
    assert_eq!(
        crate_summary(&k),
        "serde (1.0.0) - A generic serialization framework -> https://crates.io/crates/serde [https://docs.rs/crate/serde]"
    );
    assert_eq!(normalize_whitespace(""), "");
    assert_eq!(k.id(), "serde");
    assert_eq!(k.name(), "serde");
    assert_eq!(k.max_version(), "1.0.0");
}

#[test]
fn crate_replies_for_each_outcome() {
    assert_eq!(crate_reply("nope", &CrateLookup::NotFound), "Crate 'nope' does not exist.");
    assert_eq!(crate_reply("x", &CrateLookup::Failed), "Failed to get crate info for x");
    let info = Info { krate: krate("rand", "Random") };
    assert_eq!(info.krate().description(), "Random");
    assert_eq!(
        crate_reply("rand", &CrateLookup::Found(info)),
        "rand (1.0.0) - Random -> https://crates.io/crates/rand [https://docs.rs/crate/rand]"
    );
}

#[test]
fn crate_command_needs_a_name() {
    assert!(crate_name_arg(&[]).is_none());
    let args = vec![SharedStr::from_text("serde"), SharedStr::from_text("x")];
    assert_eq!(crate_name_arg(&args).unwrap().as_str(), "serde");
}
