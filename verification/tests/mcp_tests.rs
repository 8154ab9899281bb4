use enthropic::mcp::{
    classify_method, classify_tool, context_state_name, spec_summary, tool_path, validation_report,
    McpMethod, McpTool,
};
use enthropic::parser::parse;
use enthropic::validator::ValidationError;

const SPEC: &str = "\
VERSION 1
PROJECT \"Shop Backend\"
  LANG rust
  STACK axum, postgres
ENTITY order, customer
LAYERS
  API
  SERVICE
CONTRACTS
  FLOW checkout
    1. order.create
SECRETS
  API_KEY
";

#[test]
fn methods_and_tools_are_recognised() {
    assert_eq!(classify_method("initialize"), McpMethod::Initialize);
    assert_eq!(classify_method("tools/list"), McpMethod::ToolsList);
    assert_eq!(classify_method("tools/call"), McpMethod::ToolsCall);
    assert_eq!(classify_method("ping"), McpMethod::Ping);
    assert_eq!(classify_method("shutdown"), McpMethod::Unknown);
    assert_eq!(classify_tool("read_spec"), McpTool::ReadSpec);
    assert_eq!(classify_tool("get_context"), McpTool::GetContext);
    assert_eq!(classify_tool("validate_spec"), McpTool::ValidateSpec);
    assert_eq!(classify_tool("spec_summary"), McpTool::SpecSummary);
    assert_eq!(classify_tool("other"), McpTool::Unknown);
}

#[test]
fn tool_path_defaults_to_the_project_spec() {
    assert_eq!(tool_path(Some("a/b.enth")), "a/b.enth");
    assert_eq!(tool_path(None), "enthropic.enth");
}

#[test]
fn summary_of_a_spec() {
    let spec = parse("enthropic.enth", SPEC);
    assert_eq!(
        spec_summary(&spec),
        "Project: Shop Backend\nLanguage: rust\nStack: axum, postgres\nArchitecture: unspecified\nEntities: 2 (order, customer)\nLayers: 2\nFlows: 1\nSecrets declared: 1\nContracts: 0"
    );
}

#[test]
fn summary_shows_single_language_and_architecture() {
    let spec = parse("a.enth", "PROJECT App\n  LANG rust\n  ARCH layered\n  STACK axum\nENTITY user\n");
    assert_eq!(
        spec_summary(&spec),
        "Project: App\nLanguage: rust\nStack: axum\nArchitecture: layered\nEntities: 1 (user)\nLayers: 0\nFlows: 0\nSecrets declared: 0\nContracts: 0"
    );
}

#[test]
fn summary_counts_contracts() {
    let spec = parse("a.enth", "ENTITY user\nCONTRACTS\n  user ALWAYS has email\n  user NEVER shares password\n");
    assert!(spec_summary(&spec).ends_with("\nContracts: 2"));
}

#[test]
fn summary_of_an_empty_spec() {
    let spec = parse("enthropic.enth", "");
    assert_eq!(
        spec_summary(&spec),
        "Project: unnamed\nLanguage: unspecified\nStack: unspecified\nArchitecture: unspecified\nEntities: 0 ()\nLayers: 0\nFlows: 0\nSecrets declared: 0\nContracts: 0"
    );
}

#[test]
fn state_name_for_context() {
    let spec = parse("enthropic.enth", SPEC);
    assert_eq!(context_state_name(&spec, Some("enthropic")), "shop_backend");
    let anon = parse("enthropic.enth", "ENTITY a\n");
    assert_eq!(context_state_name(&anon, Some("My Stem")), "My Stem");
    assert_eq!(context_state_name(&anon, None), "project");
}

#[test]
fn validation_reports() {
    assert_eq!(validation_report("x.enth", &Vec::new()), "✓ x.enth is valid.");
    let errors = vec![
        ValidationError { rule: 1, message: "VERSION is missing".to_string(), severity: "ERROR".to_string() },
        ValidationError { rule: 12, message: "m".to_string(), severity: "WARNING".to_string() },
    ];
    assert_eq!(
        validation_report("x.enth", &errors),
        "VALIDATION ERRORS:\n[ERROR] 1 — VERSION is missing\n[WARNING] 12 — m"
    );
}

use enthropic::mcp::{handle_line, request_action, McpAction, McpRequest};

#[test]
fn blank_bad_and_notification_lines_get_no_answer() {
    assert!(matches!(handle_line("   "), McpAction::Ignore));
    assert!(matches!(handle_line("not json"), McpAction::Ignore));
    assert!(matches!(handle_line("{\"jsonrpc\":\"2.0\",\"method\":\"initialized\"}"), McpAction::Ignore));
    assert!(matches!(handle_line("[1, 2]"), McpAction::Ignore));
}

#[test]
fn requests_echo_their_id() {
    match handle_line("{\"jsonrpc\":\"2.0\",\"id\":7,\"method\":\"initialize\"}") {
        McpAction::Initialize { id_json } => assert_eq!(id_json, "7"),
        _ => panic!("expected initialize"),
    }
    match handle_line("{\"id\":\"a\",\"method\":\"ping\"}") {
        McpAction::Ping { id_json } => assert_eq!(id_json, "\"a\""),
        _ => panic!("expected ping"),
    }
    match handle_line("{\"id\":null,\"method\":\"tools/list\"}") {
        McpAction::ListTools { id_json } => assert_eq!(id_json, "null"),
        _ => panic!("expected tools/list"),
    }
}

#[test]
fn unknown_method_is_error_32601() {
    match handle_line("{\"id\":1,\"method\":\"shutdown\"}") {
        McpAction::Error { id_json, code, message } => {
            assert_eq!(id_json, "1");
            assert_eq!(code, -32601);
            assert_eq!(message, "Method not found");
        }
        _ => panic!("expected an error"),
    }
    assert!(matches!(handle_line("{\"id\":1}"), McpAction::Error { code: -32601, .. }));
}

#[test]
fn tool_calls_name_the_tool_and_path() {
    let line = "{\"id\":3,\"method\":\"tools/call\",\"params\":{\"name\":\"spec_summary\",\"arguments\":{\"path\":\"a.enth\"}}}";
    match handle_line(line) {
        McpAction::CallTool { id_json, tool, path } => {
            assert_eq!(id_json, "3");
            assert_eq!(tool, McpTool::SpecSummary);
            assert_eq!(path, "a.enth");
        }
        _ => panic!("expected a tool call"),
    }
    match handle_line("{\"id\":4,\"method\":\"tools/call\",\"params\":{\"name\":\"read_spec\"}}") {
        McpAction::CallTool { tool, path, .. } => {
            assert_eq!(tool, McpTool::ReadSpec);
            assert_eq!(path, "enthropic.enth");
        }
        _ => panic!("expected a tool call"),
    }
    match handle_line("{\"id\":5,\"method\":\"tools/call\",\"params\":{\"name\":\"nope\"}}") {
        McpAction::Error { code, message, .. } => {
            assert_eq!(code, -32602);
            assert_eq!(message, "Unknown tool: nope");
        }
        _ => panic!("expected an error"),
    }
}

#[test]
fn request_action_on_a_read_request() {
    let req = McpRequest {
        id_json: "9".to_string(),
        method: Some("tools/call".to_string()),
        tool: Some("validate_spec".to_string()),
        path: None,
    };
    match request_action(Some(Some(req))) {
        McpAction::CallTool { tool, path, .. } => {
            assert_eq!(tool, McpTool::ValidateSpec);
            assert_eq!(path, "enthropic.enth");
        }
        _ => panic!("expected a tool call"),
    }
    assert!(matches!(request_action(None), McpAction::Ignore));
    assert!(matches!(request_action(Some(None)), McpAction::Ignore));
}
