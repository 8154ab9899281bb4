use enthropic::state::set_status_upper;
use enthropic::parser::parse;
use enthropic::state::{generate, set_status, status_value_list, StateError};

const SPEC: &str = "\
VERSION 1
PROJECT demo
  LANG python
  DEPS
    SYSTEM ffmpeg
    RUNTIME redis, celery
ENTITY user, video
LAYERS
  API
CONTRACTS
  FLOW upload
    1. user.pick
    2. video.store
";

#[test]
fn generate_lists_checks_entities_flows_and_layers() {
    let spec = parse("enthropic.enth", SPEC);
    let text = generate(&spec, "demo");
    let check = |n: &str, src: &str| format!("    {:<28} UNVERIFIED   # {}", n, src);
    let pending = |n: &str| format!("    {:<28} PENDING", n);
    let lines = vec![
        "STATE demo".to_string(),
        String::new(),
        "  CHECKS".to_string(),
        check("python", "LANG"),
        check("ffmpeg", "DEPS.SYSTEM"),
        check("redis", "DEPS.RUNTIME"),
        check("celery", "DEPS.RUNTIME"),
        String::new(),
        "  ENTITY".to_string(),
        pending("user"),
        pending("video"),
        String::new(),
        "  FLOWS".to_string(),
        pending("upload"),
        String::new(),
        "  LAYERS".to_string(),
        pending("API"),
        String::new(),
    ];
    let expected = lines.join("\n");
    assert_eq!(text, expected);
}

#[test]
fn generate_for_an_empty_spec_has_only_the_header() {
    let spec = parse("enthropic.enth", "");
    assert_eq!(generate(&spec, "x"), "STATE x\n");
}

#[test]
fn set_status_updates_the_line_and_keeps_indentation() {
    let user = format!("    {:<28} PENDING", "user");
    let content = format!("STATE demo\n\n  ENTITY\n{}\n    video PENDING", user);
    let out = set_status(&content, "video", "built").unwrap();
    let video = format!("    {:<28} BUILT", "video");
    assert_eq!(out, format!("STATE demo\n\n  ENTITY\n{}\n{}\n", user, video));
}

#[test]
fn set_status_refuses_unknown_status() {
    match set_status("  a PENDING\n", "a", "done") {
        Err(StateError::InvalidStatus(s)) => assert_eq!(s, "DONE"),
        other => panic!("unexpected {:?}", other),
    }
}

#[test]
fn set_status_refuses_unknown_key() {
    match set_status("  a PENDING\n  b UNKNOWN\n", "b", "BUILT") {
        Err(StateError::KeyNotFound(k)) => assert_eq!(k, "b"),
        other => panic!("unexpected {:?}", other),
    }
}

#[test]
fn set_status_twice_is_set_status_once() {
    let spec = parse("enthropic.enth", SPEC);
    let text = generate(&spec, "demo");
    let once = set_status(&text, "upload", "partial").unwrap();
    let twice = set_status(&once, "upload", "partial").unwrap();
    assert_eq!(once, twice);
    assert!(once.contains(&format!("    {:<28} PARTIAL\n", "upload")));
}

#[test]
fn every_generated_entity_can_be_set() {
    let spec = parse("enthropic.enth", SPEC);
    let text = generate(&spec, "demo");
    for key in ["user", "video", "upload", "API"] {
        assert!(set_status(&text, key, "BUILT").is_ok(), "{key}");
    }
    // CHECKS lines carry a comment, so they are not status lines
    assert!(set_status(&text, "python", "OK").is_err());
}

#[test]
fn status_values_in_order() {
    assert_eq!(
        status_value_list(),
        vec!["BUILT", "PARTIAL", "PENDING", "OK", "MISSING", "UNVERIFIED", "SET", "UNSET"]
    );
}

#[test]
fn state_error_messages() {
    let e = set_status("  a PENDING\n", "a", "done").unwrap_err();
    assert_eq!(
        e.message(),
        "Invalid status 'DONE'. Must be: BUILT, PARTIAL, PENDING, OK, MISSING, UNVERIFIED, SET, UNSET"
    );
    let e = set_status("  a PENDING\n", "b", "built").unwrap_err();
    assert_eq!(e.message(), "Key 'b' not found in state file");
}

#[test]
fn set_status_upper_takes_the_uppercased_status() {
    assert_eq!(set_status_upper("  a PENDING\n", "a", "BUILT").unwrap(), format!("  {:<28} BUILT\n", "a"));
    assert!(matches!(set_status_upper("  a PENDING\n", "a", "built"), Err(StateError::InvalidStatus(_))));
}
