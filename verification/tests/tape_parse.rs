use ttysvg::tape::parse::{duration, parse, strip_comment, tokenize};
use ttysvg::time::Duration;
use ttysvg::number::Decimal;

#[test]
fn durations() {
    assert_eq!(duration("500ms").unwrap(), Duration::from_millis(500));
    assert_eq!(duration("2s").unwrap(), Duration::from_secs(2));
    assert_eq!(duration("1.5s").unwrap(), Duration::from_millis(1500));
    assert_eq!(duration("250").unwrap(), Duration::from_millis(250));
    assert!(duration("nope").is_err());
}

#[test]
fn quoted_tokens_survive_spaces_and_hashes() {
    let toks = tokenize(r#"type "echo # not a comment""#).unwrap();
    assert_eq!(toks, vec!["type", "echo # not a comment"]);
}

#[test]
fn comments_outside_quotes_are_stripped() {
    assert_eq!(strip_comment("width 90 # cols").trim(), "width 90");
    assert_eq!(strip_comment(r#"type "a#b""#).trim(), r#"type "a#b""#);
}

#[test]
fn windows_paths_survive_intact() {
    let toks = tokenize(r#"type ".\scripts\showcase.ps1""#).unwrap();
    assert_eq!(toks, vec!["type", r".\scripts\showcase.ps1"]);

    let toks = tokenize(r#"type "C:\temp\new\report.txt""#).unwrap();
    assert_eq!(toks, vec!["type", r"C:\temp\new\report.txt"]);
}

#[test]
fn quotes_and_backslashes_can_still_be_escaped() {
    let toks = tokenize(r#"type "say \"hi\" now""#).unwrap();
    assert_eq!(toks, vec!["type", r#"say "hi" now"#]);

    let toks = tokenize(r#"type "a\\b""#).unwrap();
    assert_eq!(toks, vec!["type", r"a\b"]);
}

#[test]
fn empty_string_is_a_token() {
    let toks = tokenize(r#"title """#).unwrap();
    assert_eq!(toks, vec!["title", ""]);
}

#[test]
fn parses_a_small_tape() {
    let tape = parse(
        r#"
            output "docs/demo.svg"
            width 80
            type "ls"
            enter
            wait "$" 5s
            sleep 1s
            "#,
    )
    .unwrap();
    assert_eq!(tape.config.cols, 80);
    assert_eq!(tape.config.output, "docs/demo.svg");
    assert_eq!(tape.ops.len(), 4);
}

#[test]
fn a_line_that_fails_is_named_with_its_number_and_trouble() {
    let err = parse("width 80\nwidth lots\n").unwrap_err();
    assert_eq!(err, "line 2: width lots: expected a whole number, got \"lots\"");

    let err = parse("output \"x\nbogus 1").unwrap_err();
    assert_eq!(err, "line 1: output \"x: unterminated string");

    let err = parse("\n# a comment\n  Frobnicate  \n").unwrap_err();
    assert_eq!(err, "line 3: Frobnicate: unknown directive \"frobnicate\"");

    let err = parse("sleep\n").unwrap_err();
    assert_eq!(err, "line 1: sleep: sleep expects a duration");
}

#[test]
fn a_duration_that_does_not_read_says_why() {
    assert_eq!(duration("-5s").unwrap_err(), "negative duration \"-5s\"");
    assert_eq!(duration(" soon ").unwrap_err(), "bad duration \"soon\", try 500ms or 2s");
    assert_eq!(
        duration("400000000000000000m").unwrap_err(),
        "duration \"400000000000000000m\" cannot be held in nanoseconds"
    );
    assert_eq!(tokenize("say \"hi").unwrap_err(), "unterminated string");
}

const README_TAPE: &str = r#"output "demo.svg"           # where to write the result
theme  "tokyonight"         # built in theme name, or a path to your own
width  80                   # recording size in characters, not pixels
height 20
window on                   # draw a title bar with traffic lights
title  "demo"

shell "powershell.exe" "-NoLogo" "-NoProfile"

type-delay 55ms             # pause between keystrokes, so typing looks human
trim-idle  700ms            # cut any dead air longer than this
tail       2s               # hold the last frame this long before looping

wait  "PS " 20s             # block until the prompt appears, up to 20 seconds
type  "cargo build"         # type it out, one character at a time
sleep 400ms
enter
wait  "Finished" 60s        # block until the build actually finishes
sleep 1s
"#;

#[test]
fn the_tape_in_the_readme_reads() {
    let tape = parse(README_TAPE).unwrap();
    assert_eq!(tape.ops.len(), 6);
    assert_eq!(tape.config.output, "demo.svg");
    assert_eq!((tape.config.cols, tape.config.rows), (80, 20));
    assert!(tape.config.window);
    assert_eq!(tape.config.title, "demo");
    assert_eq!(
        tape.config.shell,
        Some(vec!["powershell.exe".to_string(), "-NoLogo".into(), "-NoProfile".into()])
    );
    assert_eq!(tape.config.trim_idle, Some(Duration::from_millis(700)));
    assert_eq!(tape.config.type_delay, Duration::from_millis(55));
    let env = ttysvg::redact::Environment {
        userprofile: None,
        home: None,
        username: None,
        user: None,
        computername: None,
        hostname: None,
    };
    assert!(ttysvg::redact::Rules::from_config(&tape.config, &env).is_ok());
}

#[test]
fn durations_read_every_finite_number() {
    assert_eq!(duration("1e3s").unwrap(), Duration::from_secs(1000));
    assert_eq!(duration("2.5E-1s").unwrap(), Duration::from_millis(250));
    assert_eq!(duration("0.0000001s").unwrap(), Duration::from_nanos(100));
    assert_eq!(duration(".5m").unwrap(), Duration::from_secs(30));
    assert_eq!(duration("-0ms").unwrap(), Duration::from_nanos(0));
    assert_eq!(duration("1000000000000000000000e-21s").unwrap(), Duration::from_secs(1));
    assert_eq!(
        duration("1e-7ms").unwrap_err(),
        "duration \"1e-7ms\" cannot be held in nanoseconds"
    );
    assert_eq!(duration("inf").unwrap_err(), "duration \"inf\" cannot be held in nanoseconds");
    assert_eq!(duration("-Infinity").unwrap_err(), "negative duration \"-Infinity\"");
    assert_eq!(duration("nan").unwrap_err(), "bad duration \"nan\", try 500ms or 2s");
    assert_eq!(duration("1e300s").unwrap_err(), "duration \"1e300s\" cannot be held in nanoseconds");
    assert!(duration("1e").is_err());
    assert!(duration("e3").is_err());
    assert!(duration(".").is_err());
}

#[test]
fn numbers_read_exponents_and_refuse_what_they_cannot_hold() {
    assert_eq!(Decimal::parse("1e-3").unwrap().micros, 1_000);
    assert_eq!(Decimal::parse("1.5E2").unwrap().micros, 150_000_000);
    assert_eq!(Decimal::parse("+.25").unwrap().micros, 250_000);
    assert_eq!(Decimal::parse("-2e+0").unwrap().micros, -2_000_000);
    assert_eq!(Decimal::parse("0.1234560").unwrap().micros, 123_456);
    assert!(Decimal::parse("0.0000001").is_none());
    assert!(Decimal::parse("1e13").is_none());
    assert!(Decimal::parse("inf").is_none());
    assert!(Decimal::parse("1e5e3").is_none());
}

#[test]
fn spans_as_long_as_std_holds_read() {
    assert_eq!(duration("2e10s").unwrap(), Duration::from_secs(20_000_000_000));
    assert_eq!(duration("18446744073709551615s").unwrap(), Duration::from_secs(u64::MAX));
    assert_eq!(
        duration("18446744073709551616s").unwrap_err(),
        "duration \"18446744073709551616s\" cannot be held in nanoseconds"
    );
}
