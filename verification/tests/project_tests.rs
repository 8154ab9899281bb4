use enthropic::project::underscore_spaces;
use enthropic::context::{generate, PREAMBLE_TAIL};
use enthropic::parser::parse;
use enthropic::project::{
    generated_file_patterns, gitignore_fresh_text, gitignore_update_text, ignore_patterns,
    is_state_file, project_name, resolve_spec, state_file_name, ResolveError, DEFAULT_SPEC,
};

const NAMED: &str = "VERSION 2\nPROJECT \"My Shop\"\n  LANG rust\nENTITY order\n";

#[test]
fn context_wraps_spec_without_state() {
    let spec = parse("enthropic.enth", NAMED);
    let out = generate(&spec, NAMED, None);
    assert_eq!(out, format!("=== ENTHROPIC CONTEXT 2{}{}", PREAMBLE_TAIL, NAMED));
    assert!(out.contains("=== PROJECT SPEC ==="));
}

#[test]
fn context_appends_state_and_defaults_version() {
    let spec = parse("enthropic.enth", "ENTITY a\n");
    let out = generate(&spec, "ENTITY a\n", Some("STATE x"));
    let expected = format!(
        "=== ENTHROPIC CONTEXT 0.1.0{}ENTITY a\n\n\n=== CURRENT BUILD STATE ===\n\nSTATE x\n\nOnly implement entities, flows, and layers marked PENDING or PARTIAL.\nDo not re-implement anything marked BUILT.",
        PREAMBLE_TAIL
    );
    assert_eq!(out, expected);
}

#[test]
fn resolve_prefers_the_named_file() {
    assert_eq!(resolve_spec(Some("a.enth"), true, true).unwrap(), "a.enth");
    assert_eq!(resolve_spec(Some("a.enth"), false, true).unwrap(), DEFAULT_SPEC);
    assert_eq!(resolve_spec(None, false, true).unwrap(), "enthropic.enth");
    assert!(matches!(resolve_spec(Some("a.enth"), false, false), Err(ResolveError::NoSpecFile)));
    assert!(matches!(resolve_spec(None, false, false), Err(ResolveError::NoSpecFile)));
}

#[test]
fn project_name_from_declaration_stem_or_default() {
    let spec = parse("x.enth", NAMED);
    assert_eq!(project_name(&spec, Some("x")), "my_shop");
    let anon = parse("x.enth", "ENTITY a\n");
    assert_eq!(project_name(&anon, Some("Big App")), "big_app");
    assert_eq!(project_name(&anon, None), "project");
}

#[test]
fn state_file_names() {
    assert_eq!(state_file_name("my_shop"), "state_my_shop.enth");
    assert!(is_state_file("state_my_shop.enth"));
    assert!(!is_state_file("vault_my_shop.enth"));
}

#[test]
fn gitignore_gets_only_missing_entries() {
    let entries = ignore_patterns();
    let updated = gitignore_update_text("target/\nstate_*.enth\n\n", &entries).unwrap();
    assert_eq!(updated, "target/\nstate_*.enth\nvault_*.enth\n.env\n");
    assert_eq!(gitignore_update_text(&updated, &entries), None);
}

#[test]
fn fresh_gitignore_lists_all_entries() {
    assert_eq!(gitignore_fresh_text(&ignore_patterns()), "vault_*.enth\nstate_*.enth\n.env\n");
    assert_eq!(
        generated_file_patterns(),
        vec!["vault_*.enth".to_string(), "state_*.enth".to_string()]
    );
}

#[test]
fn resolve_error_message_and_underscores() {
    let e = resolve_spec(None, false, false).unwrap_err();
    assert_eq!(
        e.message(),
        "No .enth file specified and enthropic.enth not found in the current directory."
    );
    assert_eq!(underscore_spaces("my big shop"), "my_big_shop");
}
