use enthropic::global_config::{get_api_key, has_any_key, set_api_key, GlobalConfig};
use enthropic::parser::{parse, split_list, ProjectValue};
use enthropic::validator::validate;
use enthropic::wizard::{arch_styles, languages, project_slug, render_spec, LayerDef, WizardAnswers};

fn answers() -> WizardAnswers {
    WizardAnswers {
        project_name: "  \"My Shop\" ".to_string(),
        lang: "rust".to_string(),
        arch: "layered".to_string(),
        stack: split_list("axum, postgres"),
        entities: split_list("order, customer"),
        layers: vec![
            LayerDef {
                name: "API".to_string(),
                calls: split_list("SERVICE"),
                never: split_list("touch the db"),
            },
            LayerDef { name: "SERVICE".to_string(), calls: Vec::new(), never: Vec::new() },
        ],
        secrets: split_list("API_KEY, DB_URL"),
    }
}

#[test]
fn rendered_spec_text() {
    let text = render_spec(&answers());
    assert_eq!(
        text,
        "VERSION 1\n\nPROJECT \"My Shop\"\n  LANG rust\n  ARCH layered\n  STACK axum, postgres\n\nENTITY order, customer\n\nLAYERS\n  API\n    CALLS SERVICE\n    NEVER touch the db\n  SERVICE\n\nSECRETS\n  API_KEY\n  DB_URL\n\n"
    );
}

#[test]
fn minimal_answers_render_only_the_project_block() {
    let a = WizardAnswers {
        project_name: "x".to_string(),
        lang: "go".to_string(),
        arch: "other".to_string(),
        stack: Vec::new(),
        entities: Vec::new(),
        layers: Vec::new(),
        secrets: Vec::new(),
    };
    assert_eq!(render_spec(&a), "VERSION 1\n\nPROJECT \"x\"\n  LANG go\n  ARCH other\n\n");
}

#[test]
fn rendered_spec_parses_back_and_validates() {
    let text = render_spec(&answers());
    let spec = parse("enthropic.enth", &text);
    assert_eq!(spec.version, "1");
    assert_eq!(spec.entities, vec!["order".to_string(), "customer".to_string()]);
    assert_eq!(spec.layers_order, vec!["API".to_string(), "SERVICE".to_string()]);
    assert_eq!(spec.secrets, vec!["API_KEY".to_string(), "DB_URL".to_string()]);
    let value = |k: &str| spec.project.iter().find(|(key, _)| key == k).map(|(_, v)| v.clone());
    assert!(matches!(value("NAME"), Some(ProjectValue::Str(n)) if n == "\"My Shop\""));
    assert!(matches!(value("LANG"), Some(ProjectValue::Str(l)) if l == "rust"));
    assert!(matches!(
        value("STACK"),
        Some(ProjectValue::List(l)) if l == vec!["axum".to_string(), "postgres".to_string()]
    ));
    assert!(validate(&spec, Some(&text)).is_empty());
}

#[test]
fn slug_and_choices() {
    assert_eq!(project_slug("  My Big Shop "), "my_big_shop");
    assert_eq!(languages(), vec!["python", "rust", "typescript", "go", "other"]);
    assert_eq!(arch_styles(), vec!["layered", "event-driven", "realtime", "offline-first", "other"]);
}

#[test]
fn api_keys_are_stored_per_provider() {
    assert!(!has_any_key(None));
    let keys = set_api_key(None, "openai", "sk-1");
    assert!(has_any_key(Some(&keys)));
    assert_eq!(get_api_key(&keys, "openai"), Some("sk-1".to_string()));
    assert_eq!(get_api_key(&keys, "openrouter"), None);
    let keys = set_api_key(Some(keys), "openai", "sk-2");
    assert_eq!(keys.len(), 1);
    assert_eq!(get_api_key(&keys, "openai"), Some("sk-2".to_string()));
}

#[test]
fn global_config_defaults_to_nothing_chosen() {
    let c = GlobalConfig::default();
    assert!(c.provider.is_none());
    assert!(c.model.is_none());
}
