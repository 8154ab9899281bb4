use enthropic::store::SecretMap;
use enthropic::vault::{
    delete_secret, export_env, generate_vault_file, key_file_name, list_keys, secrets_file_name,
    set_secret, vault_file_name, VaultError,
};

#[test]
fn file_names() {
    assert_eq!(key_file_name("shop"), "shop.key");
    assert_eq!(secrets_file_name("shop"), "shop.secrets");
    assert_eq!(vault_file_name("shop"), "vault_shop.enth");
}

#[test]
fn vault_file_marks_set_and_unset_secrets() {
    let mut m = SecretMap::new();
    set_secret(&mut m, "API_KEY", "x");
    let names = vec!["API_KEY".to_string(), "DB_URL".to_string()];
    let text = generate_vault_file("shop", &names, Some(&m));
    let expected = format!(
        "VAULT shop\n\n  {:<28} SET\n  {:<28} UNSET\n",
        "API_KEY", "DB_URL"
    );
    assert_eq!(text, expected);
}

#[test]
fn vault_file_without_a_vault_marks_all_unset() {
    let names = vec!["TOKEN".to_string()];
    let text = generate_vault_file("p", &names, None);
    assert_eq!(text, format!("VAULT p\n\n  {:<28} UNSET\n", "TOKEN"));
}

#[test]
fn vault_file_without_declared_secrets() {
    let text = generate_vault_file("p", &Vec::new(), None);
    assert_eq!(text, "VAULT p\n\n  # no secrets declared in spec\n");
}

#[test]
fn set_then_delete() {
    let mut m = SecretMap::new();
    set_secret(&mut m, "A", "1");
    set_secret(&mut m, "B", "2");
    set_secret(&mut m, "A", "3");
    assert_eq!(m.get("A"), Some("3".to_string()));
    assert_eq!(list_keys(&m), vec!["A".to_string(), "B".to_string()]);
    assert!(delete_secret(&mut m, "A").is_ok());
    assert_eq!(m.get("A"), None);
    assert_eq!(m.get("B"), Some("2".to_string()));
    assert_eq!(list_keys(&m), vec!["B".to_string()]);
}

#[test]
fn deleting_a_missing_key_is_an_error() {
    let mut m = SecretMap::new();
    set_secret(&mut m, "B", "2");
    match delete_secret(&mut m, "A") {
        Err(VaultError::KeyNotFound(k)) => assert_eq!(k, "A"),
        Ok(()) => panic!("expected an error"),
    }
    assert_eq!(m.len(), 1);
}

#[test]
fn export_writes_env_lines() {
    let mut m = SecretMap::new();
    set_secret(&mut m, "API_KEY", "abc");
    set_secret(&mut m, "DB_URL", "postgres://x");
    assert_eq!(export_env(&m), "API_KEY=\"abc\"\nDB_URL=\"postgres://x\"");
    assert_eq!(export_env(&SecretMap::new()), "");
}

#[test]
fn vault_error_message() {
    let mut m = SecretMap::new();
    let e = delete_secret(&mut m, "TOKEN").unwrap_err();
    assert_eq!(e.message(), "Key 'TOKEN' not found in vault");
}
