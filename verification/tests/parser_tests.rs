use enthropic::parser::atomic_flag;
use enthropic::parser::{parse, split_list, EnthSpec, ProjectValue};

const SAMPLE: &str = "\
VERSION 1.2  # the format version

PROJECT \"Shop Backend\"
  LANG rust
  STACK axum, postgres ,  redis
  ARCH layered
  DEPS
    SYSTEM docker, make
    RUNTIME postgres
    OTHER ignored

VOCABULARY
  Order   a purchase
  Customer

ENTITY order, customer, payment

TRANSFORM
  order -> payment : charge, notify
  bad line without arrow
  a -> b -> c : x

LAYERS
  API
    OWNS http
    CALLS SERVICE, DB
    NEVER touch the database
    LATENCY 50ms
  SERVICE
    CAN compute

CONTRACTS
  order ALWAYS has customer
  payment MAYBE ignored
  FLOW checkout
    1. order.create
    2. payment.charge card
    3 not a step
    ROLLBACK payment, order
    ATOMIC True
    TIMEOUT 30s
    RETRY -3

SECRETS
  STRIPE_KEY   used for payments
  DB_URL
";

fn project_str(spec: &EnthSpec, key: &str) -> Option<String> {
    spec.project.iter().find(|(k, _)| k == key).and_then(|(_, v)| match v {
        ProjectValue::Str(s) => Some(s.clone()),
        _ => None,
    })
}

#[test]
fn split_list_trims_and_drops_empty_items() {
    assert_eq!(split_list(" a, b,,c ,"), vec!["a", "b", "c"]);
    assert_eq!(split_list(""), Vec::<String>::new());
    assert_eq!(split_list(" , "), Vec::<String>::new());
}

#[test]
fn parse_reads_version_and_project() {
    let spec = parse("enthropic.enth", SAMPLE);
    assert_eq!(spec.source_file, "enthropic.enth");
    assert_eq!(spec.version, "1.2");
    assert_eq!(project_str(&spec, "NAME").as_deref(), Some("\"Shop Backend\""));
    assert_eq!(project_str(&spec, "LANG").as_deref(), Some("rust"));
    assert_eq!(project_str(&spec, "ARCH").as_deref(), Some("layered"));
    let stack = spec.project.iter().find(|(k, _)| k == "STACK").unwrap();
    match &stack.1 {
        ProjectValue::List(l) => assert_eq!(l, &vec!["axum", "postgres", "redis"]),
        _ => panic!("STACK is a list"),
    }
    let deps = spec.project.iter().find(|(k, _)| k == "DEPS").unwrap();
    match &deps.1 {
        ProjectValue::Deps(d) => {
            assert_eq!(d.len(), 2);
            assert_eq!(d[0].0, "SYSTEM");
            assert_eq!(d[0].1, vec!["docker", "make"]);
            assert_eq!(d[1].0, "RUNTIME");
            assert_eq!(d[1].1, vec!["postgres"]);
        }
        _ => panic!("DEPS is a table"),
    }
}

#[test]
fn parse_reads_vocabulary_entities_and_transforms() {
    let spec = parse("enthropic.enth", SAMPLE);
    assert_eq!(spec.vocabulary, vec!["Order", "Customer"]);
    assert_eq!(spec.entities, vec!["order", "customer", "payment"]);
    assert_eq!(spec.transforms.len(), 1);
    assert_eq!(spec.transforms[0].source, "order");
    assert_eq!(spec.transforms[0].target, "payment");
    assert_eq!(spec.transforms[0].actions, vec!["charge", "notify"]);
}

#[test]
fn parse_reads_layers() {
    let spec = parse("enthropic.enth", SAMPLE);
    assert_eq!(spec.layers_order, vec!["API", "SERVICE"]);
    assert_eq!(spec.layers.len(), 2);
    let api = &spec.layers[0];
    assert_eq!(api.name, "API");
    assert_eq!(api.owns, vec!["http"]);
    assert_eq!(api.calls, vec!["SERVICE", "DB"]);
    assert_eq!(api.never, vec!["touch the database"]);
    assert_eq!(api.latency.as_deref(), Some("50ms"));
    assert_eq!(spec.layers[1].can, vec!["compute"]);
}

#[test]
fn parse_reads_contracts_and_flows() {
    let spec = parse("enthropic.enth", SAMPLE);
    assert_eq!(spec.contracts.len(), 1);
    assert_eq!(spec.contracts[0].subject, "order");
    assert_eq!(spec.contracts[0].keyword, "ALWAYS");
    assert_eq!(spec.contracts[0].qualifier, "has customer");
    assert_eq!(spec.flows_order, vec!["checkout"]);
    let flow = &spec.flows[0];
    assert_eq!(flow.name, "checkout");
    assert_eq!(flow.steps.len(), 2);
    assert_eq!(flow.steps[0].number, 1);
    assert_eq!(flow.steps[0].subject, "order");
    assert_eq!(flow.steps[0].action, "create");
    assert_eq!(flow.steps[1].number, 2);
    assert_eq!(flow.steps[1].subject, "payment");
    assert_eq!(flow.steps[1].action, "charge card");
    assert_eq!(flow.rollback, vec!["payment", "order"]);
    assert_eq!(flow.atomic, Some(true));
    assert_eq!(flow.timeout.as_deref(), Some("30s"));
    assert_eq!(flow.retry, Some(-3));
}

#[test]
fn parse_reads_secrets() {
    let spec = parse("enthropic.enth", SAMPLE);
    assert_eq!(spec.secrets, vec!["STRIPE_KEY", "DB_URL"]);
}

#[test]
fn parse_keeps_first_project_name_and_later_layer_replaces_earlier() {
    let text = "PROJECT first\n  NAME second\nPROJECT third\nLAYERS\n  A\n    OWNS x\n  A\n";
    let spec = parse("x.enth", text);
    // the PROJECT block set NAME after the header; the second header keeps it
    assert_eq!(project_str(&spec, "NAME").as_deref(), Some("second"));
    assert_eq!(spec.layers.len(), 1);
    assert!(spec.layers[0].owns.is_empty());
    assert_eq!(spec.layers_order, vec!["A", "A"]);
}

#[test]
fn parse_ignores_comments_and_crlf() {
    let text = "VERSION 2 # comment\r\nENTITY a, b # c, d\r\n# ENTITY z\r\n";
    let spec = parse("x.enth", text);
    assert_eq!(spec.version, "2");
    assert_eq!(spec.entities, vec!["a", "b"]);
}

#[test]
fn parse_step_numbers_that_overflow_or_are_empty_become_zero() {
    let text = "CONTRACTS\n  FLOW f\n    99999999999999999999999. a.b\n    . c.d\n    RETRY 99999999999\n";
    let spec = parse("x.enth", text);
    let flow = &spec.flows[0];
    assert_eq!(flow.steps.len(), 2);
    assert_eq!(flow.steps[0].number, 0);
    assert_eq!(flow.steps[1].number, 0);
    assert_eq!(flow.retry, None);
}

#[test]
fn parse_step_without_dot_has_empty_subject() {
    let text = "CONTRACTS\n  FLOW f\n    1. just text\n    ATOMIC no\n";
    let spec = parse("x.enth", text);
    let flow = &spec.flows[0];
    assert_eq!(flow.steps[0].subject, "");
    assert_eq!(flow.steps[0].action, "just text");
    assert_eq!(flow.atomic, Some(false));
}

#[test]
fn split_list_reads_back_joined_items() {
    let items = vec!["fastapi".to_string(), "postgres db".to_string(), "redis".to_string()];
    assert_eq!(split_list(&items.join(", ")), items);
}

#[test]
fn layer_and_flow_orders_name_the_stored_layers_and_flows() {
    let text = "LAYERS\n  API\n  DB\n  API\n    CALLS DB\nCONTRACTS\n  FLOW a\n    1. x.y\n  FLOW b\n";
    let spec = parse("x.enth", text);
    let mut names: Vec<String> = spec.layers.iter().map(|l| l.name.clone()).collect();
    let mut order = spec.layers_order.clone();
    names.sort();
    order.sort();
    order.dedup();
    assert_eq!(order, names);
    assert_eq!(names, vec!["API".to_string(), "DB".to_string()]);
    let flows: Vec<String> = spec.flows.iter().map(|f| f.name.clone()).collect();
    assert_eq!(flows, spec.flows_order);
}

#[test]
fn atomic_flag_is_set_by_true_only() {
    assert!(atomic_flag("true"));
    assert!(!atomic_flag("yes"));
    assert!(!atomic_flag("True"));
}
