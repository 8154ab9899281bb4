use enthropic::parser::parse;
use enthropic::validator::{validate, ValidationError};

fn summary(errors: &[ValidationError]) -> Vec<(usize, String)> {
    errors.iter().map(|e| (e.rule, e.message.clone())).collect()
}

const VALID: &str = "\
VERSION 1
ENTITY order, customer
VOCABULARY
  Order
TRANSFORM
  order -> customer : notify
LAYERS
  API
    CALLS SERVICE
  SERVICE
CONTRACTS
  order ALWAYS has customer
  *.id NEVER changes
  FLOW checkout
    1. order.create
    2. customer.notify
SECRETS
  API_KEY
";

#[test]
fn valid_spec_has_no_errors() {
    let spec = parse("project.enth", VALID);
    assert!(validate(&spec, Some(VALID)).is_empty());
}

#[test]
fn missing_version_and_entities_are_rules_one_and_two() {
    let spec = parse("project.enth", "");
    let errors = validate(&spec, None);
    assert_eq!(
        summary(&errors),
        vec![
            (1, "VERSION is missing".to_string()),
            (2, "ENTITY must declare at least one entity".to_string()),
        ]
    );
    assert!(errors.iter().all(|e| e.severity == "ERROR"));
}

#[test]
fn undeclared_entities_in_transforms_contracts_and_steps() {
    let text = "\
VERSION 1
ENTITY order
TRANSFORM
  order -> invoice : bill
CONTRACTS
  invoice.total ALWAYS positive
  FLOW pay
    1. order.start
    2. ledger.write
";
    let spec = parse("project.enth", text);
    assert_eq!(
        summary(&validate(&spec, None)),
        vec![
            (3, "TRANSFORM references undeclared entity 'invoice'".to_string()),
            (4, "CONTRACTS subject 'invoice.total' references undeclared entity 'invoice'".to_string()),
            (5, "FLOW 'pay' step 2 references undeclared entity 'ledger'".to_string()),
        ]
    );
}

#[test]
fn flow_steps_must_be_sequential_and_at_least_two() {
    let text = "\
VERSION 1
ENTITY a
CONTRACTS
  FLOW gap
    1. a.x
    3. a.y
  FLOW short
    1. a.x
";
    let spec = parse("project.enth", text);
    assert_eq!(
        summary(&validate(&spec, None)),
        vec![
            (6, "FLOW 'gap' steps are not sequential from 1: [1, 3]".to_string()),
            (7, "FLOW 'short' must have at least 2 steps (has 1)".to_string()),
        ]
    );
}

#[test]
fn naming_conventions_are_rules_eight_nine_ten_and_thirteen() {
    let text = "\
VERSION 1
ENTITY Order, ok_one
VOCABULARY
  order
LAYERS
  Api
SECRETS
  lower_key
";
    let spec = parse("project.enth", text);
    assert_eq!(
        summary(&validate(&spec, None)),
        vec![
            (8, "LAYERS name must be UPPER_CASE: 'Api'".to_string()),
            (9, "VOCABULARY entry must be PascalCase: 'order'".to_string()),
            (10, "ENTITY identifier must be snake_case: 'Order'".to_string()),
            (13, "SECRETS entry must be UPPER_CASE: 'lower_key'".to_string()),
        ]
    );
}

#[test]
fn vault_blocks_are_refused_only_in_the_main_spec() {
    let text = "VERSION 1\nENTITY a\n  VAULT x\nVAULT y\n";
    let main = parse("dir/enthropic.enth", text);
    assert_eq!(
        summary(&validate(&main, Some(text))),
        vec![
            (11, "VAULT block in enthropic.enth at line 3 — secrets must live in vault_*.enth".to_string()),
            (11, "VAULT block in enthropic.enth at line 4 — secrets must live in vault_*.enth".to_string()),
        ]
    );
    let other = parse("dir/other.enth", text);
    assert!(validate(&other, Some(text)).is_empty());
    assert!(validate(&main, None).is_empty());
}

#[test]
fn layer_calls_must_name_declared_layers() {
    let text = "VERSION 1\nENTITY a\nLAYERS\n  API\n    CALLS DB, API\n";
    let spec = parse("project.enth", text);
    assert_eq!(
        summary(&validate(&spec, None)),
        vec![(12, "LAYERS 'API' CALLS undeclared layer 'DB'".to_string())]
    );
}

#[test]
fn errors_come_in_rule_order() {
    let text = "ENTITY Bad\nLAYERS\n  x\nSECRETS\n  s\n";
    let spec = parse("project.enth", text);
    let rules: Vec<usize> = validate(&spec, None).iter().map(|e| e.rule).collect();
    assert_eq!(rules, vec![1, 8, 10, 13]);
}
