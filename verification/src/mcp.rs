//! The decisions of the MCP server: which request and tool a message names, and
//! the texts that the tools answer with.
use vstd::prelude::*;
use crate::parser::{
    assoc_get, find_project_key, opt_str, EnthSpec, EnthSpecView, ProjectValue, ProjectValueView,
};
use crate::project::{declared_name, underscored};
use crate::text::{
    append, append_str, chars_of, decimal, eq_str, join, join_chars, lowercase, push_decimal,
    seqs_of, string_of, trim, trim_chars, trim_quotes, trim_quotes_chars, chars_list,
};
use crate::validator::{errors_view, ValidationError, ValidationErrorView};

verus! {

/// The JSON-RPC methods the server answers.
#[derive(Debug, PartialEq, Eq, Structural, Clone, Copy)]
pub enum McpMethod {
    Initialize,
    ToolsList,
    ToolsCall,
    Ping,
    Unknown,
}

pub open spec fn method_of(m: Seq<char>) -> McpMethod {
    if m == "initialize"@ {
        McpMethod::Initialize
    } else if m == "tools/list"@ {
        McpMethod::ToolsList
    } else if m == "tools/call"@ {
        McpMethod::ToolsCall
    } else if m == "ping"@ {
        McpMethod::Ping
    } else {
        McpMethod::Unknown
    }
}

pub fn classify_method(method: &str) -> (res: McpMethod)
    ensures
        res == method_of(method@),
{
    let m = chars_of(method);
    if eq_str(&m, "initialize") {
        McpMethod::Initialize
    } else if eq_str(&m, "tools/list") {
        McpMethod::ToolsList
    } else if eq_str(&m, "tools/call") {
        McpMethod::ToolsCall
    } else if eq_str(&m, "ping") {
        McpMethod::Ping
    } else {
        McpMethod::Unknown
    }
}

/// The tools the server offers.
#[derive(Debug, PartialEq, Eq, Structural, Clone, Copy)]
pub enum McpTool {
    ReadSpec,
    GetContext,
    ValidateSpec,
    SpecSummary,
    Unknown,
}

pub open spec fn tool_of(name: Seq<char>) -> McpTool {
    if name == "read_spec"@ {
        McpTool::ReadSpec
    } else if name == "get_context"@ {
        McpTool::GetContext
    } else if name == "validate_spec"@ {
        McpTool::ValidateSpec
    } else if name == "spec_summary"@ {
        McpTool::SpecSummary
    } else {
        McpTool::Unknown
    }
}

pub fn classify_tool(name: &str) -> (res: McpTool)
    ensures
        res == tool_of(name@),
{
    let n = chars_of(name);
    if eq_str(&n, "read_spec") {
        McpTool::ReadSpec
    } else if eq_str(&n, "get_context") {
        McpTool::GetContext
    } else if eq_str(&n, "validate_spec") {
        McpTool::ValidateSpec
    } else if eq_str(&n, "spec_summary") {
        McpTool::SpecSummary
    } else {
        McpTool::Unknown
    }
}

/// The spec file a tool reads: its `path` argument, else `enthropic.enth`.
pub fn tool_path(arg: Option<&str>) -> (res: String)
    ensures
        res@ == match arg {
            Some(p) => p@,
            None => "enthropic.enth"@,
        },
{
    match arg {
        Some(p) => string_of(&chars_of(p)),
        None => string_of(&chars_of("enthropic.enth")),
    }
}

/// The project name under which `get_context` looks for a state file: the declared
/// `NAME` without quotes, lowercased, spaces as underscores; else the file's stem as
/// it is; else `project`.
pub open spec fn context_state_name_of(s: EnthSpecView, file_stem: Option<Seq<char>>) -> Seq<char> {
    match declared_name(s) {
        Some(n) => underscored(lowercase(trim_quotes(n))),
        None => match file_stem {
            Some(st) => st,
            None => "project"@,
        },
    }
}

pub fn context_state_name(spec: &EnthSpec, file_stem: Option<&str>) -> (res: String)
    ensures
        res@ == context_state_name_of(
            spec@,
            match file_stem {
                Some(s) => Some(s@),
                None => None,
            },
        ),
{
    match crate::project::declared_name_exec(spec) {
        Some(_) => crate::project::project_name(spec, file_stem),
        None => match file_stem {
            Some(st) => string_of(&chars_of(st)),
            None => string_of(&chars_of("project")),
        },
    }
}

// ---------------------------------------------------------------------------
// Tool answers
// ---------------------------------------------------------------------------

/// The project value under `k`: a single value as it is, a list joined with
/// `", "`; `unspecified` when there is none.
pub open spec fn value_field(s: EnthSpecView, k: Seq<char>) -> Seq<char> {
    match assoc_get(s.project, k) {
        Some(ProjectValueView::Str(v)) => v,
        Some(ProjectValueView::List(l)) => join(l, ", "@),
        _ => "unspecified"@,
    }
}

pub open spec fn summary_name(s: EnthSpecView) -> Seq<char> {
    match declared_name(s) {
        Some(n) => trim_quotes(n),
        None => "unnamed"@,
    }
}

/// The answer of `spec_summary`: name, language, stack, architecture, entities,
/// the numbers of layers, flows and declared secrets, and the number of contracts.
pub open spec fn summary_text(s: EnthSpecView) -> Seq<char> {
    "Project: "@ + summary_name(s) + "\nLanguage: "@ + value_field(s, "LANG"@) + "\nStack: "@
        + value_field(s, "STACK"@) + "\nArchitecture: "@ + value_field(s, "ARCH"@) + "\nEntities: "@
        + decimal(s.entities.len()) + " ("@ + join(s.entities, ", "@) + ")\nLayers: "@ + decimal(
        s.layers.len(),
    ) + "\nFlows: "@ + decimal(s.flows.len()) + "\nSecrets declared: "@ + decimal(s.secrets.len())
        + "\nContracts: "@ + decimal(s.contracts.len())
}

fn value_field_exec(spec: &EnthSpec, k: &str) -> (res: Vec<char>)
    ensures
        res@ == value_field(spec@, k@),
{
    let key = string_of(&chars_of(k));
    match find_project_key(&spec.project, &key) {
        Some(i) => match &spec.project[i].1 {
            ProjectValue::Str(v) => chars_of(v.as_str()),
            ProjectValue::List(l) => {
                let parts = chars_list(l);
                join_chars(&parts, ", ")
            },
            _ => chars_of("unspecified"),
        },
        None => chars_of("unspecified"),
    }
}

/// A short description of a spec: name, language, stack, architecture and counts.
pub fn spec_summary(spec: &EnthSpec) -> (res: String)
    ensures
        res@ == summary_text(spec@),
{
    let key = string_of(&chars_of("NAME"));
    let name = match find_project_key(&spec.project, &key) {
        Some(i) => match &spec.project[i].1 {
            ProjectValue::Str(n) => trim_quotes_chars(&chars_of(n.as_str())),
            _ => chars_of("unnamed"),
        },
        None => chars_of("unnamed"),
    };
    assert(name@ == summary_name(spec@));
    let mut out: Vec<char> = Vec::new();
    append_str(&mut out, "Project: ");
    append(&mut out, &name);
    append_str(&mut out, "\nLanguage: ");
    append(&mut out, &value_field_exec(spec, "LANG"));
    append_str(&mut out, "\nStack: ");
    append(&mut out, &value_field_exec(spec, "STACK"));
    append_str(&mut out, "\nArchitecture: ");
    append(&mut out, &value_field_exec(spec, "ARCH"));
    append_str(&mut out, "\nEntities: ");
    push_decimal(&mut out, spec.entities.len());
    append_str(&mut out, " (");
    let ents = chars_list(&spec.entities);
    append(&mut out, &join_chars(&ents, ", "));
    append_str(&mut out, ")\nLayers: ");
    push_decimal(&mut out, spec.layers.len());
    append_str(&mut out, "\nFlows: ");
    push_decimal(&mut out, spec.flows.len());
    append_str(&mut out, "\nSecrets declared: ");
    push_decimal(&mut out, spec.secrets.len());
    append_str(&mut out, "\nContracts: ");
    push_decimal(&mut out, spec.contracts.len());
    assert(out@ =~= summary_text(spec@));
    string_of(&out)
}

pub open spec fn report_line(e: ValidationErrorView) -> Seq<char> {
    "["@ + e.severity + "] "@ + decimal(e.rule as nat) + " — "@ + e.message
}

/// The answer of `validate_spec` for the file shown as `path`.
pub open spec fn report_text(path: Seq<char>, errors: Seq<ValidationErrorView>) -> Seq<char> {
    if errors.len() == 0 {
        "✓ "@ + path + " is valid."@
    } else {
        "VALIDATION ERRORS:\n"@ + join(errors.map_values(|e: ValidationErrorView| report_line(e)), "\n"@)
    }
}

pub fn validation_report(path: &str, errors: &Vec<ValidationError>) -> (res: String)
    ensures
        res@ == report_text(path@, errors_view(errors@)),
{
    let mut out: Vec<char> = Vec::new();
    if errors.len() == 0 {
        append_str(&mut out, "✓ ");
        append_str(&mut out, path);
        append_str(&mut out, " is valid.");
        assert(out@ =~= report_text(path@, errors_view(errors@)));
        return string_of(&out);
    }
    let ghost ls = errors_view(errors@).map_values(|e: ValidationErrorView| report_line(e));
    let mut lines: Vec<Vec<char>> = Vec::new();
    let mut i: usize = 0;
    while i < errors.len()
        invariant
            i <= errors.len(),
            ls == errors_view(errors@).map_values(|e: ValidationErrorView| report_line(e)),
            seqs_of(lines@) == ls.take(i as int),
        decreases errors.len() - i,
    {
        let mut l: Vec<char> = Vec::new();
        append_str(&mut l, "[");
        append_str(&mut l, errors[i].severity.as_str());
        append_str(&mut l, "] ");
        push_decimal(&mut l, errors[i].rule);
        append_str(&mut l, " — ");
        append_str(&mut l, errors[i].message.as_str());
        assert(l@ =~= ls[i as int]);
        let ghost before = lines@;
        lines.push(l);
        assert(seqs_of(lines@) =~= seqs_of(before).push(ls[i as int]));
        assert(ls.take(i + 1) =~= ls.take(i as int).push(ls[i as int]));
        i += 1;
    }
    assert(ls.take(errors.len() as int) =~= ls);
    append_str(&mut out, "VALIDATION ERRORS:\n");
    append(&mut out, &join_chars(&lines, "\n"));
    assert(out@ =~= report_text(path@, errors_view(errors@)));
    string_of(&out)
}

// ---------------------------------------------------------------------------
// Requests
// ---------------------------------------------------------------------------

/// The version that the server reports.
pub const SERVER_VERSION: &'static str = "0.1.0";

/// What the server reads of a JSON-RPC request: its `id` as JSON text, its
/// `method`, and, for a tool call, `params.name` and `params.arguments.path`,
/// each when it is a string.
pub struct McpRequest {
    pub id_json: String,
    pub method: Option<String>,
    pub tool: Option<String>,
    pub path: Option<String>,
}

#[verifier::ext_equal]
pub struct McpRequestView {
    pub id_json: Seq<char>,
    pub method: Option<Seq<char>>,
    pub tool: Option<Seq<char>>,
    pub path: Option<Seq<char>>,
}

impl View for McpRequest {
    type V = McpRequestView;

    open spec fn view(&self) -> McpRequestView {
        McpRequestView {
            id_json: self.id_json@,
            method: opt_str(self.method),
            tool: opt_str(self.tool),
            path: opt_str(self.path),
        }
    }
}

/// A read line: `None` when it is not JSON, `Some(None)` when it is JSON without an `id`.
pub open spec fn request_view(r: Option<Option<McpRequest>>) -> Option<Option<McpRequestView>> {
    match r {
        Some(Some(q)) => Some(Some(q@)),
        Some(None) => Some(None),
        None => None,
    }
}

/// What `serde_json::from_str` makes of a line, read as `McpRequest` reads it:
/// `None` when the line is not JSON, `Some(None)` when it has no `id`.
pub uninterp spec fn json_request(line: Seq<char>) -> Option<Option<McpRequestView>>;

/// `serde_json::from_str::<serde_json::Value>` on the line, then the fields that
/// `McpRequest` holds: `Value::get("id")` (written back with `to_string`),
/// `method`, `params.name` and `params.arguments.path` as strings. The result is
/// the named `json_request`.
#[verifier::external_body]
fn parse_request(line: &str) -> (res: Option<Option<McpRequest>>)
    ensures
        request_view(res) == json_request(line@),
{
    match serde_json::from_str::<serde_json::Value>(line) {
        Err(_) => None,
        Ok(v) => match v.get("id") {
            None => Some(None),
            Some(id) => Some(Some(McpRequest {
                id_json: id.to_string(),
                method: v["method"].as_str().map(String::from),
                tool: v["params"]["name"].as_str().map(String::from),
                path: v["params"]["arguments"]["path"].as_str().map(String::from),
            })),
        },
    }
}

/// What the server does with a line.
pub enum McpAction {
    /// No answer: a blank line, a line that is not JSON, or a notification (no `id`).
    Ignore,
    Initialize { id_json: String },
    ListTools { id_json: String },
    Ping { id_json: String },
    /// Run a known tool on the spec file `path`.
    CallTool { id_json: String, tool: McpTool, path: String },
    /// Answer with a JSON-RPC error.
    Error { id_json: String, code: i32, message: String },
}

pub enum McpActionView {
    Ignore,
    Initialize { id_json: Seq<char> },
    ListTools { id_json: Seq<char> },
    Ping { id_json: Seq<char> },
    CallTool { id_json: Seq<char>, tool: McpTool, path: Seq<char> },
    Error { id_json: Seq<char>, code: i32, message: Seq<char> },
}

impl View for McpAction {
    type V = McpActionView;

    open spec fn view(&self) -> McpActionView {
        match self {
            McpAction::Ignore => McpActionView::Ignore,
            McpAction::Initialize { id_json } => McpActionView::Initialize { id_json: id_json@ },
            McpAction::ListTools { id_json } => McpActionView::ListTools { id_json: id_json@ },
            McpAction::Ping { id_json } => McpActionView::Ping { id_json: id_json@ },
            McpAction::CallTool { id_json, tool, path } => McpActionView::CallTool {
                id_json: id_json@,
                tool: *tool,
                path: path@,
            },
            McpAction::Error { id_json, code, message } => McpActionView::Error {
                id_json: id_json@,
                code: *code,
                message: message@,
            },
        }
    }
}

/// The answer to a tool call: the tool it names, or an error for an unknown tool.
pub open spec fn call_action(id: Seq<char>, tool: Option<Seq<char>>, path: Option<Seq<char>>) -> McpActionView {
    let name = match tool {
        Some(n) => n,
        None => Seq::empty(),
    };
    if tool_of(name) == McpTool::Unknown {
        McpActionView::Error { id_json: id, code: -32602i32, message: "Unknown tool: "@ + name }
    } else {
        McpActionView::CallTool {
            id_json: id,
            tool: tool_of(name),
            path: match path {
                Some(p) => p,
                None => "enthropic.enth"@,
            },
        }
    }
}

/// The action for a read request: none without an `id`; else by method, the
/// `id` echoed, and an unknown method answered with error -32601.
pub open spec fn action_of(r: Option<Option<McpRequestView>>) -> McpActionView {
    match r {
        Some(Some(q)) => {
            let m = match q.method {
                Some(m) => m,
                None => Seq::empty(),
            };
            match method_of(m) {
                McpMethod::Initialize => McpActionView::Initialize { id_json: q.id_json },
                McpMethod::ToolsList => McpActionView::ListTools { id_json: q.id_json },
                McpMethod::Ping => McpActionView::Ping { id_json: q.id_json },
                McpMethod::ToolsCall => call_action(q.id_json, q.tool, q.path),
                McpMethod::Unknown => McpActionView::Error {
                    id_json: q.id_json,
                    code: -32601i32,
                    message: "Method not found"@,
                },
            }
        },
        _ => McpActionView::Ignore,
    }
}

fn opt_as_str(o: &Option<String>) -> (res: &str)
    ensures
        res@ == match opt_str(*o) {
            Some(x) => x,
            None => Seq::<char>::empty(),
        },
{
    match o {
        Some(x) => x.as_str(),
        None => {
            proof {
                reveal_strlit("");
            }
            ""
        },
    }
}

/// What the server does with a read request.
pub fn request_action(req: Option<Option<McpRequest>>) -> (res: McpAction)
    ensures
        res@ == action_of(request_view(req)),
{
    match req {
        Some(Some(q)) => {
            let id = q.id_json;
            match classify_method(opt_as_str(&q.method)) {
                McpMethod::Initialize => McpAction::Initialize { id_json: id },
                McpMethod::ToolsList => McpAction::ListTools { id_json: id },
                McpMethod::Ping => McpAction::Ping { id_json: id },
                McpMethod::ToolsCall => {
                    let name = opt_as_str(&q.tool);
                    let tool = classify_tool(name);
                    match tool {
                        McpTool::Unknown => {
                            let mut m = chars_of("Unknown tool: ");
                            append_str(&mut m, name);
                            McpAction::Error { id_json: id, code: -32602, message: string_of(&m) }
                        },
                        _ => {
                            let path = match &q.path {
                                Some(p) => tool_path(Some(p.as_str())),
                                None => tool_path(None),
                            };
                            McpAction::CallTool { id_json: id, tool, path }
                        },
                    }
                },
                McpMethod::Unknown => McpAction::Error {
                    id_json: id,
                    code: -32601i32,
                    message: string_of(&chars_of("Method not found")),
                },
            }
        },
        _ => McpAction::Ignore,
    }
}

/// What the server does with a line read from stdin: nothing for a blank line,
/// else the action for the request that the line holds.
pub fn handle_line(line: &str) -> (res: McpAction)
    ensures
        trim(line@).len() == 0 ==> res@ == McpActionView::Ignore,
        trim(line@).len() > 0 ==> res@ == action_of(json_request(line@)),
{
    if trim_chars(&chars_of(line)).len() == 0 {
        return McpAction::Ignore;
    }
    request_action(parse_request(line))
}

/// A `tools/call` request for a known tool runs that tool on the file that its
/// `arguments.path` names, with the request's `id`; only a request without a
/// path gets `enthropic.enth`.
pub proof fn law_tool_call_uses_path(q: McpRequestView, name: Seq<char>)
    requires
        q.method == Some("tools/call"@),
        q.tool == Some(name),
        tool_of(name) != McpTool::Unknown,
    ensures
        q.path matches Some(p) ==> action_of(Some(Some(q))) == (McpActionView::CallTool {
            id_json: q.id_json,
            tool: tool_of(name),
            path: p,
        }),
        q.path is None ==> action_of(Some(Some(q))) == (McpActionView::CallTool {
            id_json: q.id_json,
            tool: tool_of(name),
            path: "enthropic.enth"@,
        }),
{
    reveal_strlit("tools/call");
    reveal_strlit("initialize");
    reveal_strlit("tools/list");
    assert("tools/call"@ != "initialize"@) by {
        assert("tools/call"@[0] != "initialize"@[0]);
    }
    assert("tools/call"@ != "tools/list"@) by {
        assert("tools/call"@[6] != "tools/list"@[6]);
    }
    assert(method_of("tools/call"@) == McpMethod::ToolsCall);
}

/// The id of an action that answers a request.
pub open spec fn answered_id(a: McpActionView) -> Option<Seq<char>> {
    match a {
        McpActionView::Ignore => None,
        McpActionView::Initialize { id_json } => Some(id_json),
        McpActionView::ListTools { id_json } => Some(id_json),
        McpActionView::Ping { id_json } => Some(id_json),
        McpActionView::CallTool { id_json, .. } => Some(id_json),
        McpActionView::Error { id_json, .. } => Some(id_json),
    }
}

/// Every request with an `id` is answered, under that same `id`; a line that is
/// not JSON, or a notification without an `id`, is not answered.
pub proof fn law_requests_answered_under_their_id(q: McpRequestView)
    ensures
        answered_id(action_of(Some(Some(q)))) == Some(q.id_json),
        action_of(None) == McpActionView::Ignore,
        action_of(Some(None)) == McpActionView::Ignore,
{
}

} // verus!
