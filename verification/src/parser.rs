//! The `.enth` specification format: its data model and its line-oriented parser.
//!
//! A spec file is read line by line. Everything after a `#` is a comment. A line
//! that starts in column 0 opens a section (`PROJECT`, `VOCABULARY`, `TRANSFORM`,
//! `LAYERS`, `CONTRACTS`, `SECRETS`) or sets a single value (`VERSION`, `ENTITY`);
//! the indented lines that follow belong to the section.
use vstd::prelude::*;
use crate::text::{
    all_digits, ends_with, has_char, indent_char, lead, lowercase, parse_i32, pos, comma_list,
    split_ws_once, starts_with, step_number, strs_of, trim, trim_quotes, words, join, lines, other_than, lemma_lead, CharClass, find_char, slice_of,
    lead_len, trim_chars, starts_with_str, chars_of, seqs_of, words_chars, string_of,
    split_list_chars, strings_of, eq_str, split_ws_once_chars, is_digit, is_ascii_digit,
    parse_step_number, lowercase_chars, parse_i32_chars, join_chars, trim_quotes_chars,
    lines_chars,
};

verus! {

// ---------------------------------------------------------------------------
// Data model
// ---------------------------------------------------------------------------

#[derive(Debug, Clone)]
pub struct Transform {
    pub source: String,
    pub target: String,
    pub actions: Vec<String>,
}

#[derive(Debug, Clone)]
pub struct Layer {
    pub name: String,
    pub owns: Vec<String>,
    pub can: Vec<String>,
    pub cannot: Vec<String>,
    pub calls: Vec<String>,
    pub never: Vec<String>,
    pub latency: Option<String>,
}

#[derive(Debug, Clone)]
pub struct Contract {
    pub subject: String,
    pub keyword: String,
    pub qualifier: String,
}

#[derive(Debug, Clone)]
pub struct FlowStep {
    pub number: usize,
    pub subject: String,
    pub action: String,
}

#[derive(Debug, Clone)]
pub struct Flow {
    pub name: String,
    pub steps: Vec<FlowStep>,
    pub rollback: Vec<String>,
    pub atomic: Option<bool>,
    pub timeout: Option<String>,
    pub retry: Option<i32>,
}

/// A value of the `PROJECT` block: a plain string, a list (`STACK`), or the
/// dependency table (`DEPS`), which maps `SYSTEM` / `RUNTIME` / `DEV` to lists.
#[derive(Debug, Clone)]
pub enum ProjectValue {
    Str(String),
    List(Vec<String>),
    Deps(Vec<(String, Vec<String>)>),
}

/// A parsed `.enth` file. `project` is keyed by its first components, `layers`
/// by layer name and `flows` by flow name; no key occurs twice in any of them.
#[derive(Debug, Clone)]
pub struct EnthSpec {
    pub source_file: String,
    pub version: String,
    pub project: Vec<(String, ProjectValue)>,
    pub vocabulary: Vec<String>,
    pub entities: Vec<String>,
    pub transforms: Vec<Transform>,
    pub layers: Vec<Layer>,
    pub layers_order: Vec<String>,
    pub contracts: Vec<Contract>,
    pub flows: Vec<Flow>,
    pub flows_order: Vec<String>,
    pub secrets: Vec<String>,
}

// ---------------------------------------------------------------------------
// Mathematical model
// ---------------------------------------------------------------------------

#[verifier::ext_equal]
pub struct TransformView {
    pub source: Seq<char>,
    pub target: Seq<char>,
    pub actions: Seq<Seq<char>>,
}

#[verifier::ext_equal]
pub struct LayerView {
    pub name: Seq<char>,
    pub owns: Seq<Seq<char>>,
    pub can: Seq<Seq<char>>,
    pub cannot: Seq<Seq<char>>,
    pub calls: Seq<Seq<char>>,
    pub never: Seq<Seq<char>>,
    pub latency: Option<Seq<char>>,
}

#[verifier::ext_equal]
pub struct ContractView {
    pub subject: Seq<char>,
    pub keyword: Seq<char>,
    pub qualifier: Seq<char>,
}

#[verifier::ext_equal]
pub struct FlowStepView {
    pub number: usize,
    pub subject: Seq<char>,
    pub action: Seq<char>,
}

#[verifier::ext_equal]
pub struct FlowView {
    pub name: Seq<char>,
    pub steps: Seq<FlowStepView>,
    pub rollback: Seq<Seq<char>>,
    pub atomic: Option<bool>,
    pub timeout: Option<Seq<char>>,
    pub retry: Option<i32>,
}

#[verifier::ext_equal]
pub enum ProjectValueView {
    Str(Seq<char>),
    List(Seq<Seq<char>>),
    Deps(Seq<(Seq<char>, Seq<Seq<char>>)>),
}

#[verifier::ext_equal]
pub struct EnthSpecView {
    pub source_file: Seq<char>,
    pub version: Seq<char>,
    pub project: Seq<(Seq<char>, ProjectValueView)>,
    pub vocabulary: Seq<Seq<char>>,
    pub entities: Seq<Seq<char>>,
    pub transforms: Seq<TransformView>,
    pub layers: Seq<LayerView>,
    pub layers_order: Seq<Seq<char>>,
    pub contracts: Seq<ContractView>,
    pub flows: Seq<FlowView>,
    pub flows_order: Seq<Seq<char>>,
    pub secrets: Seq<Seq<char>>,
}

pub open spec fn opt_str(o: Option<String>) -> Option<Seq<char>> {
    match o {
        Some(s) => Some(s@),
        None => None,
    }
}

pub open spec fn deps_view(d: Seq<(String, Vec<String>)>) -> Seq<(Seq<char>, Seq<Seq<char>>)> {
    d.map_values(|e: (String, Vec<String>)| (e.0@, strs_of(e.1@)))
}

impl View for Transform {
    type V = TransformView;

    open spec fn view(&self) -> TransformView {
        TransformView { source: self.source@, target: self.target@, actions: strs_of(self.actions@) }
    }
}

impl View for Layer {
    type V = LayerView;

    open spec fn view(&self) -> LayerView {
        LayerView {
            name: self.name@,
            owns: strs_of(self.owns@),
            can: strs_of(self.can@),
            cannot: strs_of(self.cannot@),
            calls: strs_of(self.calls@),
            never: strs_of(self.never@),
            latency: opt_str(self.latency),
        }
    }
}

impl View for Contract {
    type V = ContractView;

    open spec fn view(&self) -> ContractView {
        ContractView { subject: self.subject@, keyword: self.keyword@, qualifier: self.qualifier@ }
    }
}

impl View for FlowStep {
    type V = FlowStepView;

    open spec fn view(&self) -> FlowStepView {
        FlowStepView { number: self.number, subject: self.subject@, action: self.action@ }
    }
}

impl View for Flow {
    type V = FlowView;

    open spec fn view(&self) -> FlowView {
        FlowView {
            name: self.name@,
            steps: self.steps@.map_values(|s: FlowStep| s@),
            rollback: strs_of(self.rollback@),
            atomic: self.atomic,
            timeout: opt_str(self.timeout),
            retry: self.retry,
        }
    }
}

impl View for ProjectValue {
    type V = ProjectValueView;

    open spec fn view(&self) -> ProjectValueView {
        match self {
            ProjectValue::Str(s) => ProjectValueView::Str(s@),
            ProjectValue::List(l) => ProjectValueView::List(strs_of(l@)),
            ProjectValue::Deps(d) => ProjectValueView::Deps(deps_view(d@)),
        }
    }
}

pub open spec fn project_view(p: Seq<(String, ProjectValue)>) -> Seq<(Seq<char>, ProjectValueView)> {
    p.map_values(|e: (String, ProjectValue)| (e.0@, e.1@))
}

impl View for EnthSpec {
    type V = EnthSpecView;

    open spec fn view(&self) -> EnthSpecView {
        EnthSpecView {
            source_file: self.source_file@,
            version: self.version@,
            project: project_view(self.project@),
            vocabulary: strs_of(self.vocabulary@),
            entities: strs_of(self.entities@),
            transforms: self.transforms@.map_values(|t: Transform| t@),
            layers: self.layers@.map_values(|l: Layer| l@),
            layers_order: strs_of(self.layers_order@),
            contracts: self.contracts@.map_values(|c: Contract| c@),
            flows: self.flows@.map_values(|f: Flow| f@),
            flows_order: strs_of(self.flows_order@),
            secrets: strs_of(self.secrets@),
        }
    }
}

// ---------------------------------------------------------------------------
// Keyed sequences (the maps of the model)
// ---------------------------------------------------------------------------

pub open spec fn is_first_with<A>(s: Seq<A>, p: spec_fn(A) -> bool, i: int) -> bool {
    0 <= i < s.len() && p(s[i]) && forall|j: int| 0 <= j < i ==> !p(#[trigger] s[j])
}

/// Index of the first element of `s` that satisfies `p`.
pub open spec fn first_with<A>(s: Seq<A>, p: spec_fn(A) -> bool) -> Option<int> {
    if exists|i: int| is_first_with(s, p, i) {
        Some(choose|i: int| is_first_with(s, p, i))
    } else {
        None
    }
}

pub proof fn lemma_first_with_some<A>(s: Seq<A>, p: spec_fn(A) -> bool, i: int)
    requires
        is_first_with(s, p, i),
    ensures
        first_with(s, p) == Some(i),
{
    let k = choose|k: int| is_first_with(s, p, k);
    assert(is_first_with(s, p, k));
    if k < i {
        assert(!p(s[k]));
    }
    if i < k {
        assert(!p(s[i]));
    }
}

/// What `first_with` says of the sequence.
pub proof fn lemma_first_with_props<A>(s: Seq<A>, p: spec_fn(A) -> bool)
    ensures
        match first_with(s, p) {
            Some(i) => is_first_with(s, p, i),
            None => forall|j: int| 0 <= j < s.len() ==> !p(#[trigger] s[j]),
        },
{
    if first_with(s, p) is None {
        assert forall|j: int| 0 <= j < s.len() implies !p(#[trigger] s[j]) by {
            if p(s[j]) {
                lemma_first_with_exists(s, p, j);
            }
        }
    }
}

/// When some element satisfies `p`, a first one does.
pub proof fn lemma_first_with_exists<A>(s: Seq<A>, p: spec_fn(A) -> bool, j: int)
    requires
        0 <= j < s.len(),
        p(s[j]),
    ensures
        first_with(s, p) is Some,
    decreases j,
{
    if exists|k: int| 0 <= k < j && p(#[trigger] s[k]) {
        let k = choose|k: int| 0 <= k < j && p(#[trigger] s[k]);
        lemma_first_with_exists(s, p, k);
    } else {
        assert(is_first_with(s, p, j));
    }
}

pub proof fn lemma_first_with_none<A>(s: Seq<A>, p: spec_fn(A) -> bool)
    requires
        forall|j: int| 0 <= j < s.len() ==> !p(#[trigger] s[j]),
    ensures
        first_with(s, p) is None,
{
}

pub open spec fn keyed<V>(k: Seq<char>) -> spec_fn((Seq<char>, V)) -> bool {
    |e: (Seq<char>, V)| e.0 == k
}

/// `HashMap::insert` on a keyed sequence: the entry of key `k` is replaced, or appended.
pub open spec fn assoc_insert<V>(m: Seq<(Seq<char>, V)>, k: Seq<char>, v: V) -> Seq<(Seq<char>, V)> {
    match first_with(m, keyed::<V>(k)) {
        Some(i) => m.update(i, (k, v)),
        None => m.push((k, v)),
    }
}

/// The value under key `k`, if any.
pub open spec fn assoc_get<V>(m: Seq<(Seq<char>, V)>, k: Seq<char>) -> Option<V> {
    match first_with(m, keyed::<V>(k)) {
        Some(i) => Some(m[i].1),
        None => None,
    }
}

pub open spec fn layer_named(n: Seq<char>) -> spec_fn(LayerView) -> bool {
    |l: LayerView| l.name == n
}

pub open spec fn flow_named(n: Seq<char>) -> spec_fn(FlowView) -> bool {
    |f: FlowView| f.name == n
}

pub open spec fn upsert_layer(ls: Seq<LayerView>, l: LayerView) -> Seq<LayerView> {
    match first_with(ls, layer_named(l.name)) {
        Some(i) => ls.update(i, l),
        None => ls.push(l),
    }
}

pub open spec fn upsert_flow(fs: Seq<FlowView>, f: FlowView) -> Seq<FlowView> {
    match first_with(fs, flow_named(f.name)) {
        Some(i) => fs.update(i, f),
        None => fs.push(f),
    }
}

pub open spec fn keys_distinct<V>(m: Seq<(Seq<char>, V)>) -> bool {
    forall|i: int, j: int| 0 <= i < j < m.len() ==> m[i].0 != m[j].0
}

pub open spec fn layer_names_distinct(ls: Seq<LayerView>) -> bool {
    forall|i: int, j: int| 0 <= i < j < ls.len() ==> ls[i].name != ls[j].name
}

pub open spec fn flow_names_distinct(fs: Seq<FlowView>) -> bool {
    forall|i: int, j: int| 0 <= i < j < fs.len() ==> fs[i].name != fs[j].name
}

/// The names of the layers, in their order.
pub open spec fn layer_names_of(ls: Seq<LayerView>) -> Seq<Seq<char>> {
    ls.map_values(|l: LayerView| l.name)
}

/// The names of the flows, in their order.
pub open spec fn flow_names_of(fs: Seq<FlowView>) -> Seq<Seq<char>> {
    fs.map_values(|f: FlowView| f.name)
}

/// The two lists hold the same names (each perhaps more than once).
pub open spec fn same_names(a: Seq<Seq<char>>, b: Seq<Seq<char>>) -> bool {
    forall|n: Seq<char>| #[trigger] a.contains(n) <==> #[trigger] b.contains(n)
}

impl EnthSpecView {
    /// No key occurs twice in `project`, in a `DEPS` table, in `layers` or in
    /// `flows`; `layers_order` and `flows_order` list exactly the names of the
    /// layers and of the flows.
    pub open spec fn well_formed(self) -> bool {
        &&& keys_distinct(self.project)
        &&& forall|i: int|
            0 <= i < self.project.len() ==> ((#[trigger] self.project[i]).1 matches ProjectValueView::Deps(
                d,
            ) ==> keys_distinct(d))
        &&& layer_names_distinct(self.layers)
        &&& flow_names_distinct(self.flows)
        &&& same_names(self.layers_order, layer_names_of(self.layers))
        &&& same_names(self.flows_order, flow_names_of(self.flows))
    }
}

// ---------------------------------------------------------------------------
// Lines
// ---------------------------------------------------------------------------

/// The line without its comment: everything before the first `#`.
pub open spec fn strip_comment(line: Seq<char>) -> Seq<char> {
    line.take(pos(line, '#') as int)
}

/// Number of leading spaces and tabs.
pub open spec fn indent_len(s: Seq<char>) -> nat {
    lead(s, indent_char())
}

/// The significant text of a line.
pub open spec fn tok(line: Seq<char>) -> Seq<char> {
    trim(strip_comment(line))
}

pub open spec fn ind(line: Seq<char>) -> nat {
    indent_len(strip_comment(line))
}

pub open spec fn is_blank(line: Seq<char>) -> bool {
    tok(line).len() == 0
}

/// A line that opens a new top-level section.
pub open spec fn at_top(line: Seq<char>) -> bool {
    !is_blank(line) && ind(line) == 0
}

/// The index where the section that starts at `i` ends: the next top-level line, or the end.
pub open spec fn section_end(ls: Seq<Seq<char>>, i: int) -> int
    decreases ls.len() - i,
{
    if i < 0 || i >= ls.len() {
        ls.len() as int
    } else if at_top(ls[i]) {
        i
    } else {
        section_end(ls, i + 1)
    }
}

pub proof fn lemma_section_end(ls: Seq<Seq<char>>, i: int)
    requires
        0 <= i,
    ensures
        i <= section_end(ls, i) || i > ls.len(),
        section_end(ls, i) <= ls.len(),
    decreases ls.len() - i,
{
    if i < ls.len() && !at_top(ls[i]) {
        lemma_section_end(ls, i + 1);
    }
}

/// The text after a prefix.
pub open spec fn after(t: Seq<char>, p: Seq<char>) -> Seq<char> {
    t.skip(p.len() as int)
}

// ---------------------------------------------------------------------------
// Sections
// ---------------------------------------------------------------------------

/// The first word of each line of a section (`VOCABULARY`, `SECRETS`), appended to `acc`.
pub open spec fn first_words(ls: Seq<Seq<char>>, i: int, acc: Seq<Seq<char>>) -> Seq<Seq<char>>
    decreases ls.len() - i,
{
    if i < 0 || i >= ls.len() || at_top(ls[i]) {
        acc
    } else if is_blank(ls[i]) {
        first_words(ls, i + 1, acc)
    } else {
        let w = words(tok(ls[i]));
        first_words(ls, i + 1, if w.len() > 0 { acc.push(w[0]) } else { acc })
    }
}

/// `key value` in `PROJECT`: `STACK` holds a list, every other key a string.
pub open spec fn project_entry(s: EnthSpecView, t: Seq<char>) -> EnthSpecView {
    match split_ws_once(t) {
        Some((key, val)) => {
            let k = trim(key);
            let v = trim(trim_quotes(trim(val)));
            let value = if k == "STACK"@ {
                ProjectValueView::List(comma_list(v))
            } else {
                ProjectValueView::Str(v)
            };
            EnthSpecView { project: assoc_insert(s.project, k, value), ..s }
        },
        None => s,
    }
}

/// `SYSTEM` / `RUNTIME` / `DEV` lines under `DEPS`.
pub open spec fn deps_entry(deps: Seq<(Seq<char>, Seq<Seq<char>>)>, t: Seq<char>) -> Seq<
    (Seq<char>, Seq<Seq<char>>),
> {
    match split_ws_once(t) {
        Some((key, val)) => {
            let k = trim(key);
            if k == "SYSTEM"@ || k == "RUNTIME"@ || k == "DEV"@ {
                assoc_insert(deps, k, comma_list(trim(val)))
            } else {
                deps
            }
        },
        None => deps,
    }
}

/// The `DEPS` table, stored when the `PROJECT` block ends and only when it is not empty.
pub open spec fn with_deps(s: EnthSpecView, deps: Seq<(Seq<char>, Seq<Seq<char>>)>) -> EnthSpecView {
    if deps.len() > 0 {
        EnthSpecView { project: assoc_insert(s.project, "DEPS"@, ProjectValueView::Deps(deps)), ..s }
    } else {
        s
    }
}

pub open spec fn project_section(
    ls: Seq<Seq<char>>,
    i: int,
    in_deps: bool,
    deps: Seq<(Seq<char>, Seq<Seq<char>>)>,
    s: EnthSpecView,
) -> EnthSpecView
    decreases ls.len() - i,
{
    if i < 0 || i >= ls.len() || at_top(ls[i]) {
        with_deps(s, deps)
    } else if is_blank(ls[i]) {
        project_section(ls, i + 1, in_deps, deps, s)
    } else if ind(ls[i]) <= 2 {
        let t = tok(ls[i]);
        if t == "DEPS"@ {
            project_section(ls, i + 1, true, deps, s)
        } else {
            project_section(ls, i + 1, false, deps, project_entry(s, t))
        }
    } else if in_deps {
        project_section(ls, i + 1, in_deps, deps_entry(deps, tok(ls[i])), s)
    } else {
        project_section(ls, i + 1, in_deps, deps, s)
    }
}

/// The pieces of `s` around `"->"`, as `str::split("->")` yields them.
pub open spec fn arrow_at(s: Seq<char>, k: int) -> bool {
    0 <= k && k + 1 < s.len() && s[k] == '-' && s[k + 1] == '>'
}

pub open spec fn first_arrow(s: Seq<char>, k: int) -> bool {
    arrow_at(s, k) && forall|j: int| 0 <= j < k ==> !arrow_at(s, j)
}

pub open spec fn has_arrow(s: Seq<char>) -> bool {
    exists|k: int| arrow_at(s, k)
}

pub open spec fn split_arrow(s: Seq<char>) -> Seq<Seq<char>>
    decreases s.len(),
{
    if exists|k: int| first_arrow(s, k) {
        let k = choose|k: int| first_arrow(s, k);
        seq![s.take(k)] + split_arrow(s.skip(k + 2))
    } else {
        seq![s]
    }
}

/// `source -> target : action, ...` in `TRANSFORM`.
pub open spec fn transform_of(t: Seq<char>) -> Option<TransformView> {
    if has_arrow(t) && has_char(t, ':') {
        let p = pos(t, ':') as int;
        let parts = split_arrow(t.take(p));
        if parts.len() == 2 {
            Some(
                TransformView {
                    source: trim(parts[0]),
                    target: trim(parts[1]),
                    actions: comma_list(t.skip(p + 1)),
                },
            )
        } else {
            None
        }
    } else {
        None
    }
}

pub open spec fn transform_section(ls: Seq<Seq<char>>, i: int, acc: Seq<TransformView>) -> Seq<
    TransformView,
>
    decreases ls.len() - i,
{
    if i < 0 || i >= ls.len() || at_top(ls[i]) {
        acc
    } else if is_blank(ls[i]) {
        transform_section(ls, i + 1, acc)
    } else {
        transform_section(
            ls,
            i + 1,
            match transform_of(tok(ls[i])) {
                Some(tr) => acc.push(tr),
                None => acc,
            },
        )
    }
}

pub open spec fn new_layer(name: Seq<char>) -> LayerView {
    LayerView {
        name: name,
        owns: Seq::empty(),
        can: Seq::empty(),
        cannot: Seq::empty(),
        calls: Seq::empty(),
        never: Seq::empty(),
        latency: None,
    }
}

/// A property line of a layer: `OWNS`, `CAN`, `CANNOT`, `CALLS` set lists, `NEVER`
/// adds a rule, `LATENCY` sets the latency; other keys are ignored.
pub open spec fn layer_property(l: LayerView, key: Seq<char>, v: Seq<char>) -> LayerView {
    if key == "OWNS"@ {
        LayerView { owns: comma_list(v), ..l }
    } else if key == "CAN"@ {
        LayerView { can: comma_list(v), ..l }
    } else if key == "CANNOT"@ {
        LayerView { cannot: comma_list(v), ..l }
    } else if key == "CALLS"@ {
        LayerView { calls: comma_list(v), ..l }
    } else if key == "NEVER"@ {
        LayerView { never: l.never.push(v), ..l }
    } else if key == "LATENCY"@ {
        LayerView { latency: Some(v), ..l }
    } else {
        l
    }
}

pub open spec fn layer_line(s: EnthSpecView, cur: Seq<char>, t: Seq<char>) -> EnthSpecView {
    match split_ws_once(t) {
        Some((key, val)) => match first_with(s.layers, layer_named(cur)) {
            Some(i) => EnthSpecView {
                layers: s.layers.update(i, layer_property(s.layers[i], key, trim(val))),
                ..s
            },
            None => s,
        },
        None => s,
    }
}

pub open spec fn layers_section(ls: Seq<Seq<char>>, i: int, cur: Option<Seq<char>>, s: EnthSpecView) -> EnthSpecView
    decreases ls.len() - i,
{
    if i < 0 || i >= ls.len() || at_top(ls[i]) {
        s
    } else if is_blank(ls[i]) {
        layers_section(ls, i + 1, cur, s)
    } else if ind(ls[i]) <= 2 {
        let name = tok(ls[i]);
        layers_section(
            ls,
            i + 1,
            Some(name),
            EnthSpecView {
                layers_order: s.layers_order.push(name),
                layers: upsert_layer(s.layers, new_layer(name)),
                ..s
            },
        )
    } else {
        match cur {
            Some(c) => layers_section(ls, i + 1, cur, layer_line(s, c, tok(ls[i]))),
            None => layers_section(ls, i + 1, cur, s),
        }
    }
}

pub open spec fn new_flow(name: Seq<char>) -> FlowView {
    FlowView {
        name: name,
        steps: Seq::empty(),
        rollback: Seq::empty(),
        atomic: None,
        timeout: None,
        retry: None,
    }
}

/// `SUBJECT ALWAYS|NEVER|REQUIRES qualifier...` in `CONTRACTS`.
pub open spec fn contract_line(s: EnthSpecView, t: Seq<char>) -> EnthSpecView {
    let parts = words(t);
    if parts.len() >= 3 && (parts[1] == "ALWAYS"@ || parts[1] == "NEVER"@ || parts[1]
        == "REQUIRES"@) {
        EnthSpecView {
            contracts: s.contracts.push(
                ContractView {
                    subject: parts[0],
                    keyword: parts[1],
                    qualifier: join(parts.skip(2), " "@),
                },
            ),
            ..s
        }
    } else {
        s
    }
}

/// A line inside a `FLOW`: a numbered step `N. subject.action`, or one of
/// `ROLLBACK`, `ATOMIC`, `TIMEOUT`, `RETRY`.
pub open spec fn flow_property(f: FlowView, first: Seq<char>, rest: Seq<char>) -> FlowView {
    if ends_with(first, seq!['.']) && all_digits(first.drop_last()) {
        let num = step_number(first.drop_last());
        let d = pos(rest, '.') as int;
        let step = if d < rest.len() {
            FlowStepView { number: num, subject: trim(rest.take(d)), action: trim(rest.skip(d + 1)) }
        } else {
            FlowStepView { number: num, subject: Seq::empty(), action: rest }
        };
        FlowView { steps: f.steps.push(step), ..f }
    } else if first == "ROLLBACK"@ {
        FlowView { rollback: comma_list(rest), ..f }
    } else if first == "ATOMIC"@ {
        FlowView { atomic: Some(lowercase(rest) == "true"@), ..f }
    } else if first == "TIMEOUT"@ {
        FlowView { timeout: Some(rest), ..f }
    } else if first == "RETRY"@ {
        match parse_i32(rest) {
            Some(n) => FlowView { retry: Some(n), ..f },
            None => f,
        }
    } else {
        f
    }
}

pub open spec fn flow_line(s: EnthSpecView, cur: Seq<char>, t: Seq<char>) -> EnthSpecView {
    let (first, rest) = match split_ws_once(t) {
        Some((a, b)) => (trim(a), trim(b)),
        None => (t, Seq::empty()),
    };
    match first_with(s.flows, flow_named(cur)) {
        Some(i) => EnthSpecView { flows: s.flows.update(i, flow_property(s.flows[i], first, rest)), ..s },
        None => s,
    }
}

pub open spec fn contracts_section(
    ls: Seq<Seq<char>>,
    i: int,
    cur: Option<Seq<char>>,
    s: EnthSpecView,
) -> EnthSpecView
    decreases ls.len() - i,
{
    if i < 0 || i >= ls.len() || at_top(ls[i]) {
        s
    } else if is_blank(ls[i]) {
        contracts_section(ls, i + 1, cur, s)
    } else if ind(ls[i]) <= 2 {
        let t = tok(ls[i]);
        if starts_with(t, "FLOW "@) {
            let name = trim(after(t, "FLOW "@));
            contracts_section(
                ls,
                i + 1,
                Some(name),
                EnthSpecView {
                    flows_order: s.flows_order.push(name),
                    flows: upsert_flow(s.flows, new_flow(name)),
                    ..s
                },
            )
        } else {
            contracts_section(ls, i + 1, None, contract_line(s, t))
        }
    } else {
        match cur {
            Some(c) => contracts_section(ls, i + 1, cur, flow_line(s, c, tok(ls[i]))),
            None => contracts_section(ls, i + 1, cur, s),
        }
    }
}

// ---------------------------------------------------------------------------
// Top level
// ---------------------------------------------------------------------------

pub open spec fn empty_spec(source_file: Seq<char>) -> EnthSpecView {
    EnthSpecView {
        source_file: source_file,
        version: Seq::empty(),
        project: Seq::empty(),
        vocabulary: Seq::empty(),
        entities: Seq::empty(),
        transforms: Seq::empty(),
        layers: Seq::empty(),
        layers_order: Seq::empty(),
        contracts: Seq::empty(),
        flows: Seq::empty(),
        flows_order: Seq::empty(),
        secrets: Seq::empty(),
    }
}

/// `PROJECT name`: the name is kept unless the block already set one.
pub open spec fn project_header(s: EnthSpecView, t: Seq<char>) -> EnthSpecView {
    if starts_with(t, "PROJECT "@) && assoc_get(s.project, "NAME"@) is None {
        EnthSpecView {
            project: assoc_insert(
                s.project,
                "NAME"@,
                ProjectValueView::Str(trim(after(t, "PROJECT "@))),
            ),
            ..s
        }
    } else {
        s
    }
}

/// The effect of the top-level line `ls[i]` together with the section it opens,
/// and the index of the next line to read.
pub open spec fn top_step(ls: Seq<Seq<char>>, i: int, s: EnthSpecView) -> (int, EnthSpecView) {
    let t = tok(ls[i]);
    let end = section_end(ls, i + 1);
    if starts_with(t, "VERSION "@) {
        (i + 1, EnthSpecView { version: trim(after(t, "VERSION "@)), ..s })
    } else if t == "PROJECT"@ || starts_with(t, "PROJECT "@) {
        (end, project_section(ls, i + 1, false, Seq::empty(), project_header(s, t)))
    } else if t == "VOCABULARY"@ {
        (end, EnthSpecView { vocabulary: first_words(ls, i + 1, s.vocabulary), ..s })
    } else if starts_with(t, "ENTITY "@) {
        (i + 1, EnthSpecView { entities: comma_list(after(t, "ENTITY "@)), ..s })
    } else if t == "TRANSFORM"@ {
        (end, EnthSpecView { transforms: transform_section(ls, i + 1, s.transforms), ..s })
    } else if t == "LAYERS"@ {
        (end, layers_section(ls, i + 1, None, s))
    } else if t == "CONTRACTS"@ {
        (end, contracts_section(ls, i + 1, None, s))
    } else if t == "SECRETS"@ {
        (end, EnthSpecView { secrets: first_words(ls, i + 1, s.secrets), ..s })
    } else {
        (i + 1, s)
    }
}

pub proof fn lemma_top_step(ls: Seq<Seq<char>>, i: int, s: EnthSpecView)
    requires
        0 <= i < ls.len(),
    ensures
        i < top_step(ls, i, s).0 <= ls.len(),
{
    lemma_section_end(ls, i + 1);
}

/// The spec read from line `i` on, starting from `s`.
pub open spec fn parse_lines(ls: Seq<Seq<char>>, i: int, s: EnthSpecView) -> EnthSpecView
    decreases ls.len() - i,
{
    if i < 0 || i >= ls.len() {
        s
    } else if !at_top(ls[i]) {
        parse_lines(ls, i + 1, s)
    } else {
        let (j, s2) = top_step(ls, i, s);
        proof {
            lemma_top_step(ls, i, s);
        }
        parse_lines(ls, j, s2)
    }
}

/// The spec that a file named `source_file` with text `content` describes.
pub open spec fn parse_spec(source_file: Seq<char>, content: Seq<char>) -> EnthSpecView {
    parse_lines(lines(content), 0, empty_spec(source_file))
}


// ---------------------------------------------------------------------------
// Well-formedness of what the parser builds
// ---------------------------------------------------------------------------

pub open spec fn deps_distinct(p: Seq<(Seq<char>, ProjectValueView)>) -> bool {
    forall|i: int|
        0 <= i < p.len() ==> ((#[trigger] p[i]).1 matches ProjectValueView::Deps(d) ==> keys_distinct(d))
}

pub open spec fn value_ok(v: ProjectValueView) -> bool {
    v matches ProjectValueView::Deps(d) ==> keys_distinct(d)
}

pub proof fn lemma_assoc_insert_distinct<V>(m: Seq<(Seq<char>, V)>, k: Seq<char>, v: V)
    requires
        keys_distinct(m),
    ensures
        keys_distinct(assoc_insert(m, k, v)),
        forall|j: int|
            0 <= j < assoc_insert(m, k, v).len() ==> #[trigger] assoc_insert(m, k, v)[j] == (k, v)
                || (j < m.len() && assoc_insert(m, k, v)[j] == m[j]),
{
    lemma_first_with_props(m, keyed::<V>(k));
}

proof fn lemma_project_insert_ok(p: Seq<(Seq<char>, ProjectValueView)>, k: Seq<char>, v: ProjectValueView)
    requires
        keys_distinct(p),
        deps_distinct(p),
        value_ok(v),
    ensures
        keys_distinct(assoc_insert(p, k, v)),
        deps_distinct(assoc_insert(p, k, v)),
{
    lemma_assoc_insert_distinct(p, k, v);
    let q = assoc_insert(p, k, v);
    assert forall|i: int| 0 <= i < q.len() implies ((#[trigger] q[i]).1 matches ProjectValueView::Deps(
        d,
    ) ==> keys_distinct(d)) by {
        if q[i] != (k, v) {
            assert(q[i] == p[i]);
        }
    }
}

proof fn lemma_push_contains(a: Seq<Seq<char>>, x: Seq<char>)
    ensures
        forall|m: Seq<char>| #[trigger] a.push(x).contains(m) <==> a.contains(m) || m == x,
{
    assert forall|m: Seq<char>| #[trigger] a.push(x).contains(m) <==> a.contains(m) || m == x by {
        if a.contains(m) {
            let k = choose|k: int| 0 <= k < a.len() && a[k] == m;
            assert(a.push(x)[k] == m);
        }
        if m == x {
            assert(a.push(x)[a.len() as int] == x);
        }
        if a.push(x).contains(m) && m != x {
            let k = choose|k: int| 0 <= k < a.push(x).len() && a.push(x)[k] == m;
            assert(k < a.len());
            assert(a[k] == m);
        }
    }
}

/// A layer declared in a section adds its name to both lists.
proof fn lemma_declare_layer_names(order: Seq<Seq<char>>, ls: Seq<LayerView>, name: Seq<char>)
    requires
        same_names(order, layer_names_of(ls)),
    ensures
        same_names(order.push(name), layer_names_of(upsert_layer(ls, new_layer(name)))),
{
    lemma_first_with_props(ls, layer_named(name));
    lemma_push_contains(order, name);
    let u = upsert_layer(ls, new_layer(name));
    match first_with(ls, layer_named(name)) {
        Some(i) => {
            assert(layer_names_of(u) =~= layer_names_of(ls));
            assert(layer_names_of(ls)[i] == name);
        },
        None => {
            assert(layer_names_of(u) =~= layer_names_of(ls).push(name));
            lemma_push_contains(layer_names_of(ls), name);
        },
    }
}

/// A flow declared in a section adds its name to both lists.
proof fn lemma_declare_flow_names(order: Seq<Seq<char>>, fs: Seq<FlowView>, name: Seq<char>)
    requires
        same_names(order, flow_names_of(fs)),
    ensures
        same_names(order.push(name), flow_names_of(upsert_flow(fs, new_flow(name)))),
{
    lemma_first_with_props(fs, flow_named(name));
    lemma_push_contains(order, name);
    let u = upsert_flow(fs, new_flow(name));
    match first_with(fs, flow_named(name)) {
        Some(i) => {
            assert(flow_names_of(u) =~= flow_names_of(fs));
            assert(flow_names_of(fs)[i] == name);
        },
        None => {
            assert(flow_names_of(u) =~= flow_names_of(fs).push(name));
            lemma_push_contains(flow_names_of(fs), name);
        },
    }
}

proof fn lemma_upsert_layer_distinct(ls: Seq<LayerView>, l: LayerView)
    requires
        layer_names_distinct(ls),
    ensures
        layer_names_distinct(upsert_layer(ls, l)),
{
    lemma_first_with_props(ls, layer_named(l.name));
}

proof fn lemma_upsert_flow_distinct(fs: Seq<FlowView>, f: FlowView)
    requires
        flow_names_distinct(fs),
    ensures
        flow_names_distinct(upsert_flow(fs, f)),
{
    lemma_first_with_props(fs, flow_named(f.name));
}

proof fn lemma_layer_line_wf(s: EnthSpecView, cur: Seq<char>, t: Seq<char>)
    requires
        s.well_formed(),
    ensures
        layer_line(s, cur, t).well_formed(),
{
    if let Some((key, val)) = split_ws_once(t) {
        if let Some(i) = first_with(s.layers, layer_named(cur)) {
            lemma_first_with_props(s.layers, layer_named(cur));
            let nl = layer_property(s.layers[i], key, trim(val));
            assert(nl.name == s.layers[i].name);
            let r = layer_line(s, cur, t);
            assert forall|a: int, b: int| 0 <= a < b < r.layers.len() implies r.layers[a].name
                != r.layers[b].name by {
                assert(r.layers[a].name == s.layers[a].name);
                assert(r.layers[b].name == s.layers[b].name);
            }
            assert(layer_names_of(r.layers) =~= layer_names_of(s.layers));
        }
    }
}

proof fn lemma_flow_line_wf(s: EnthSpecView, cur: Seq<char>, t: Seq<char>)
    requires
        s.well_formed(),
    ensures
        flow_line(s, cur, t).well_formed(),
{
    let (first, rest) = match split_ws_once(t) {
        Some((a, b)) => (trim(a), trim(b)),
        None => (t, Seq::empty()),
    };
    if let Some(i) = first_with(s.flows, flow_named(cur)) {
        lemma_first_with_props(s.flows, flow_named(cur));
        let nf = flow_property(s.flows[i], first, rest);
        assert(nf.name == s.flows[i].name);
        let r = flow_line(s, cur, t);
        assert forall|a: int, b: int| 0 <= a < b < r.flows.len() implies r.flows[a].name
            != r.flows[b].name by {
            assert(r.flows[a].name == s.flows[a].name);
            assert(r.flows[b].name == s.flows[b].name);
        }
        assert(flow_names_of(r.flows) =~= flow_names_of(s.flows));
    }
}

proof fn lemma_project_entry_wf(s: EnthSpecView, t: Seq<char>)
    requires
        s.well_formed(),
    ensures
        project_entry(s, t).well_formed(),
{
    if let Some((key, val)) = split_ws_once(t) {
        let k = trim(key);
        let v = trim(trim_quotes(trim(val)));
        let value = if k == "STACK"@ {
            ProjectValueView::List(comma_list(v))
        } else {
            ProjectValueView::Str(v)
        };
        lemma_project_insert_ok(s.project, k, value);
    }
}

proof fn lemma_deps_entry_distinct(deps: Seq<(Seq<char>, Seq<Seq<char>>)>, t: Seq<char>)
    requires
        keys_distinct(deps),
    ensures
        keys_distinct(deps_entry(deps, t)),
{
    if let Some((key, val)) = split_ws_once(t) {
        let k = trim(key);
        lemma_assoc_insert_distinct(deps, k, comma_list(trim(val)));
    }
}

proof fn lemma_project_section_wf(
    ls: Seq<Seq<char>>,
    i: int,
    in_deps: bool,
    deps: Seq<(Seq<char>, Seq<Seq<char>>)>,
    s: EnthSpecView,
)
    requires
        s.well_formed(),
        keys_distinct(deps),
    ensures
        project_section(ls, i, in_deps, deps, s).well_formed(),
    decreases ls.len() - i,
{
    if i < 0 || i >= ls.len() || at_top(ls[i]) {
        if deps.len() > 0 {
            lemma_project_insert_ok(s.project, "DEPS"@, ProjectValueView::Deps(deps));
        }
    } else if is_blank(ls[i]) {
        lemma_project_section_wf(ls, i + 1, in_deps, deps, s);
    } else if ind(ls[i]) <= 2 {
        let t = tok(ls[i]);
        if t == "DEPS"@ {
            lemma_project_section_wf(ls, i + 1, true, deps, s);
        } else {
            lemma_project_entry_wf(s, t);
            lemma_project_section_wf(ls, i + 1, false, deps, project_entry(s, t));
        }
    } else if in_deps {
        lemma_deps_entry_distinct(deps, tok(ls[i]));
        lemma_project_section_wf(ls, i + 1, in_deps, deps_entry(deps, tok(ls[i])), s);
    } else {
        lemma_project_section_wf(ls, i + 1, in_deps, deps, s);
    }
}

proof fn lemma_layers_section_wf(ls: Seq<Seq<char>>, i: int, cur: Option<Seq<char>>, s: EnthSpecView)
    requires
        s.well_formed(),
    ensures
        layers_section(ls, i, cur, s).well_formed(),
    decreases ls.len() - i,
{
    if i < 0 || i >= ls.len() || at_top(ls[i]) {
    } else if is_blank(ls[i]) {
        lemma_layers_section_wf(ls, i + 1, cur, s);
    } else if ind(ls[i]) <= 2 {
        let name = tok(ls[i]);
        lemma_upsert_layer_distinct(s.layers, new_layer(name));
        lemma_declare_layer_names(s.layers_order, s.layers, name);
        lemma_layers_section_wf(
            ls,
            i + 1,
            Some(name),
            EnthSpecView {
                layers_order: s.layers_order.push(name),
                layers: upsert_layer(s.layers, new_layer(name)),
                ..s
            },
        );
    } else {
        match cur {
            Some(c) => {
                lemma_layer_line_wf(s, c, tok(ls[i]));
                lemma_layers_section_wf(ls, i + 1, cur, layer_line(s, c, tok(ls[i])));
            },
            None => {
                lemma_layers_section_wf(ls, i + 1, cur, s);
            },
        }
    }
}

proof fn lemma_contracts_section_wf(ls: Seq<Seq<char>>, i: int, cur: Option<Seq<char>>, s: EnthSpecView)
    requires
        s.well_formed(),
    ensures
        contracts_section(ls, i, cur, s).well_formed(),
    decreases ls.len() - i,
{
    if i < 0 || i >= ls.len() || at_top(ls[i]) {
    } else if is_blank(ls[i]) {
        lemma_contracts_section_wf(ls, i + 1, cur, s);
    } else if ind(ls[i]) <= 2 {
        let t = tok(ls[i]);
        if starts_with(t, "FLOW "@) {
            let name = trim(after(t, "FLOW "@));
            lemma_upsert_flow_distinct(s.flows, new_flow(name));
            lemma_declare_flow_names(s.flows_order, s.flows, name);
            lemma_contracts_section_wf(
                ls,
                i + 1,
                Some(name),
                EnthSpecView {
                    flows_order: s.flows_order.push(name),
                    flows: upsert_flow(s.flows, new_flow(name)),
                    ..s
                },
            );
        } else {
            lemma_contracts_section_wf(ls, i + 1, None, contract_line(s, t));
        }
    } else {
        match cur {
            Some(c) => {
                lemma_flow_line_wf(s, c, tok(ls[i]));
                lemma_contracts_section_wf(ls, i + 1, cur, flow_line(s, c, tok(ls[i])));
            },
            None => {
                lemma_contracts_section_wf(ls, i + 1, cur, s);
            },
        }
    }
}

proof fn lemma_top_step_wf(ls: Seq<Seq<char>>, i: int, s: EnthSpecView)
    requires
        0 <= i < ls.len(),
        s.well_formed(),
    ensures
        top_step(ls, i, s).1.well_formed(),
{
    let t = tok(ls[i]);
    if starts_with(t, "VERSION "@) {
    } else if t == "PROJECT"@ || starts_with(t, "PROJECT "@) {
        let s1 = project_header(s, t);
        if starts_with(t, "PROJECT "@) && assoc_get(s.project, "NAME"@) is None {
            lemma_project_insert_ok(s.project, "NAME"@, ProjectValueView::Str(trim(after(t, "PROJECT "@))));
        }
        lemma_project_section_wf(ls, i + 1, false, Seq::empty(), s1);
    } else if t == "VOCABULARY"@ {
    } else if starts_with(t, "ENTITY "@) {
    } else if t == "TRANSFORM"@ {
    } else if t == "LAYERS"@ {
        lemma_layers_section_wf(ls, i + 1, None, s);
    } else if t == "CONTRACTS"@ {
        lemma_contracts_section_wf(ls, i + 1, None, s);
    }
}

proof fn lemma_parse_lines_wf(ls: Seq<Seq<char>>, i: int, s: EnthSpecView)
    requires
        s.well_formed(),
    ensures
        parse_lines(ls, i, s).well_formed(),
    decreases ls.len() - i,
{
    if i < 0 || i >= ls.len() {
    } else if !at_top(ls[i]) {
        lemma_parse_lines_wf(ls, i + 1, s);
    } else {
        lemma_top_step(ls, i, s);
        lemma_top_step_wf(ls, i, s);
        let (j, s2) = top_step(ls, i, s);
        lemma_parse_lines_wf(ls, j, s2);
    }
}

/// A parsed spec holds each project key, each `DEPS` key, each layer name and
/// each flow name once: a name declared again replaces the earlier declaration.
/// The layer order and the flow order list exactly the names of the layers and
/// of the flows that the spec holds, each layer and flow under its own name.
pub proof fn law_parse_well_formed(source_file: Seq<char>, content: Seq<char>)
    ensures
        parse_spec(source_file, content).well_formed(),
        forall|n: Seq<char>|
            #[trigger] parse_spec(source_file, content).layers_order.contains(n) <==> exists|i: int|
                0 <= i < parse_spec(source_file, content).layers.len() && #[trigger] parse_spec(
                    source_file,
                    content,
                ).layers[i].name == n,
        forall|n: Seq<char>|
            #[trigger] parse_spec(source_file, content).flows_order.contains(n) <==> exists|i: int|
                0 <= i < parse_spec(source_file, content).flows.len() && #[trigger] parse_spec(
                    source_file,
                    content,
                ).flows[i].name == n,
{
    let s0 = empty_spec(source_file);
    assert(layer_names_of(s0.layers) =~= Seq::<Seq<char>>::empty());
    assert(flow_names_of(s0.flows) =~= Seq::<Seq<char>>::empty());
    lemma_parse_lines_wf(lines(content), 0, s0);
    let s = parse_spec(source_file, content);
    assert forall|n: Seq<char>| #[trigger] s.layers_order.contains(n) <==> exists|i: int|
        0 <= i < s.layers.len() && #[trigger] s.layers[i].name == n by {
        if s.layers_order.contains(n) {
            assert(layer_names_of(s.layers).contains(n));
            let k = choose|k: int| 0 <= k < layer_names_of(s.layers).len() && layer_names_of(s.layers)[k] == n;
            assert(s.layers[k].name == n);
        }
        if exists|i: int| 0 <= i < s.layers.len() && #[trigger] s.layers[i].name == n {
            let k = choose|i: int| 0 <= i < s.layers.len() && #[trigger] s.layers[i].name == n;
            assert(layer_names_of(s.layers)[k] == n);
            assert(layer_names_of(s.layers).contains(n));
        }
    }
    assert forall|n: Seq<char>| #[trigger] s.flows_order.contains(n) <==> exists|i: int|
        0 <= i < s.flows.len() && #[trigger] s.flows[i].name == n by {
        if s.flows_order.contains(n) {
            assert(flow_names_of(s.flows).contains(n));
            let k = choose|k: int| 0 <= k < flow_names_of(s.flows).len() && flow_names_of(s.flows)[k] == n;
            assert(s.flows[k].name == n);
        }
        if exists|i: int| 0 <= i < s.flows.len() && #[trigger] s.flows[i].name == n {
            let k = choose|i: int| 0 <= i < s.flows.len() && #[trigger] s.flows[i].name == n;
            assert(flow_names_of(s.flows)[k] == n);
            assert(flow_names_of(s.flows).contains(n));
        }
    }
}

// ---------------------------------------------------------------------------
// Executable parser
// ---------------------------------------------------------------------------

/// The text of a line without its comment (the part before the first `#`).
fn strip_comment_chars(line: &Vec<char>) -> (res: Vec<char>)
    ensures
        res@ == strip_comment(line@),
{
    let k = find_char(line, '#');
    proof {
        lemma_lead(line@, other_than('#'));
    }
    let r = slice_of(line, 0, k);
    assert(r@ =~= line@.take(k as int));
    r
}

/// Number of leading spaces and tabs.
fn indent_len_chars(s: &Vec<char>) -> (res: usize)
    ensures
        res == indent_len(s@),
{
    let r = lead_len(s, 0, s.len(), &CharClass::Indent);
    assert(s@.subrange(0, s@.len() as int) =~= s@);
    r
}

/// The significant text of a line and its indentation.
fn line_info(line: &Vec<char>) -> (res: (Vec<char>, usize))
    ensures
        res.0@ == tok(line@),
        res.1 == ind(line@),
{
    let clean = strip_comment_chars(line);
    let t = trim_chars(&clean);
    let d = indent_len_chars(&clean);
    (t, d)
}

/// `t` without its first `n` characters.
fn drop_prefix(t: &Vec<char>, n: usize) -> (res: Vec<char>)
    requires
        n <= t.len(),
    ensures
        res@ == t@.skip(n as int),
{
    let r = slice_of(t, n, t.len());
    assert(r@ =~= t@.skip(n as int));
    r
}

/// `str::strip_prefix`.
fn strip_prefix(t: &Vec<char>, p: &str) -> (res: Option<Vec<char>>)
    ensures
        match res {
            Some(r) => starts_with(t@, p@) && r@ == after(t@, p@),
            None => !starts_with(t@, p@),
        },
{
    if starts_with_str(t, p) {
        let pv = chars_of(p);
        Some(drop_prefix(t, pv.len()))
    } else {
        None
    }
}

fn find_layer(ls: &Vec<Layer>, name: &String) -> (res: Option<usize>)
    ensures
        match res {
            Some(i) => first_with(ls@.map_values(|l: Layer| l@), layer_named(name@)) == Some(i as int) && i < ls.len(),
            None => first_with(ls@.map_values(|l: Layer| l@), layer_named(name@)) is None,
        },
{
    let ghost v = ls@.map_values(|l: Layer| l@);
    let mut i: usize = 0;
    while i < ls.len()
        invariant
            i <= ls.len(),
            v == ls@.map_values(|l: Layer| l@),
            forall|j: int| 0 <= j < i ==> !layer_named(name@)(#[trigger] v[j]),
        decreases ls.len() - i,
    {
        if ls[i].name == *name {
            proof {
                lemma_first_with_some(v, layer_named(name@), i as int);
            }
            return Some(i);
        }
        i += 1;
    }
    proof {
        lemma_first_with_none(v, layer_named(name@));
    }
    None
}

fn find_flow(fs: &Vec<Flow>, name: &String) -> (res: Option<usize>)
    ensures
        match res {
            Some(i) => first_with(fs@.map_values(|f: Flow| f@), flow_named(name@)) == Some(i as int) && i < fs.len(),
            None => first_with(fs@.map_values(|f: Flow| f@), flow_named(name@)) is None,
        },
{
    let ghost v = fs@.map_values(|f: Flow| f@);
    let mut i: usize = 0;
    while i < fs.len()
        invariant
            i <= fs.len(),
            v == fs@.map_values(|f: Flow| f@),
            forall|j: int| 0 <= j < i ==> !flow_named(name@)(#[trigger] v[j]),
        decreases fs.len() - i,
    {
        if fs[i].name == *name {
            proof {
                lemma_first_with_some(v, flow_named(name@), i as int);
            }
            return Some(i);
        }
        i += 1;
    }
    proof {
        lemma_first_with_none(v, flow_named(name@));
    }
    None
}

pub(crate) fn find_project_key(m: &Vec<(String, ProjectValue)>, k: &String) -> (res: Option<usize>)
    ensures
        match res {
            Some(i) => first_with(project_view(m@), keyed::<ProjectValueView>(k@)) == Some(i as int) && i < m.len(),
            None => first_with(project_view(m@), keyed::<ProjectValueView>(k@)) is None,
        },
{
    let ghost v = project_view(m@);
    let mut i: usize = 0;
    while i < m.len()
        invariant
            i <= m.len(),
            v == project_view(m@),
            forall|j: int| 0 <= j < i ==> !keyed::<ProjectValueView>(k@)(#[trigger] v[j]),
        decreases m.len() - i,
    {
        if m[i].0 == *k {
            proof {
                lemma_first_with_some(v, keyed::<ProjectValueView>(k@), i as int);
            }
            return Some(i);
        }
        i += 1;
    }
    proof {
        lemma_first_with_none(v, keyed::<ProjectValueView>(k@));
    }
    None
}

pub(crate) fn find_deps_key(m: &Vec<(String, Vec<String>)>, k: &String) -> (res: Option<usize>)
    ensures
        match res {
            Some(i) => first_with(deps_view(m@), keyed::<Seq<Seq<char>>>(k@)) == Some(i as int) && i < m.len(),
            None => first_with(deps_view(m@), keyed::<Seq<Seq<char>>>(k@)) is None,
        },
{
    let ghost v = deps_view(m@);
    let mut i: usize = 0;
    while i < m.len()
        invariant
            i <= m.len(),
            v == deps_view(m@),
            forall|j: int| 0 <= j < i ==> !keyed::<Seq<Seq<char>>>(k@)(#[trigger] v[j]),
        decreases m.len() - i,
    {
        if m[i].0 == *k {
            proof {
                lemma_first_with_some(v, keyed::<Seq<Seq<char>>>(k@), i as int);
            }
            return Some(i);
        }
        i += 1;
    }
    proof {
        lemma_first_with_none(v, keyed::<Seq<Seq<char>>>(k@));
    }
    None
}

fn project_insert(m: &mut Vec<(String, ProjectValue)>, k: String, v: ProjectValue)
    ensures
        project_view(final(m)@) == assoc_insert(project_view(old(m)@), k@, v@),
{
    match find_project_key(m, &k) {
        Some(i) => {
            let ghost kv = k@;
            let ghost vv = v@;
            m.set(i, (k, v));
            assert(project_view(m@) =~= project_view(old(m)@).update(i as int, (kv, vv)));
        },
        None => {
            let ghost kv = k@;
            let ghost vv = v@;
            m.push((k, v));
            assert(project_view(m@) =~= project_view(old(m)@).push((kv, vv)));
        },
    }
}

fn deps_insert(m: &mut Vec<(String, Vec<String>)>, k: String, v: Vec<String>)
    ensures
        deps_view(final(m)@) == assoc_insert(deps_view(old(m)@), k@, strs_of(v@)),
{
    match find_deps_key(m, &k) {
        Some(i) => {
            let ghost kv = k@;
            let ghost vv = strs_of(v@);
            m.set(i, (k, v));
            assert(deps_view(m@) =~= deps_view(old(m)@).update(i as int, (kv, vv)));
        },
        None => {
            let ghost kv = k@;
            let ghost vv = strs_of(v@);
            m.push((k, v));
            assert(deps_view(m@) =~= deps_view(old(m)@).push((kv, vv)));
        },
    }
}

fn new_layer_exec(name: String) -> (res: Layer)
    ensures
        res@ == new_layer(name@),
{
    let r = Layer {
        name,
        owns: Vec::new(),
        can: Vec::new(),
        cannot: Vec::new(),
        calls: Vec::new(),
        never: Vec::new(),
        latency: None,
    };
    assert(r@ =~= new_layer(r.name@));
    r
}

fn new_flow_exec(name: String) -> (res: Flow)
    ensures
        res@ == new_flow(name@),
{
    let r = Flow {
        name,
        steps: Vec::new(),
        rollback: Vec::new(),
        atomic: None,
        timeout: None,
        retry: None,
    };
    assert(r@ =~= new_flow(r.name@));
    r
}

fn upsert_layer_exec(ls: &mut Vec<Layer>, l: Layer)
    ensures
        final(ls)@.map_values(|x: Layer| x@) == upsert_layer(old(ls)@.map_values(|x: Layer| x@), l@),
{
    let ghost lv = l@;
    match find_layer(ls, &l.name) {
        Some(i) => {
            ls.set(i, l);
            assert(ls@.map_values(|x: Layer| x@) =~= old(ls)@.map_values(|x: Layer| x@).update(i as int, lv));
        },
        None => {
            ls.push(l);
            assert(ls@.map_values(|x: Layer| x@) =~= old(ls)@.map_values(|x: Layer| x@).push(lv));
        },
    }
}

fn upsert_flow_exec(fs: &mut Vec<Flow>, f: Flow)
    ensures
        final(fs)@.map_values(|x: Flow| x@) == upsert_flow(old(fs)@.map_values(|x: Flow| x@), f@),
{
    let ghost fv = f@;
    match find_flow(fs, &f.name) {
        Some(i) => {
            fs.set(i, f);
            assert(fs@.map_values(|x: Flow| x@) =~= old(fs)@.map_values(|x: Flow| x@).update(i as int, fv));
        },
        None => {
            fs.push(f);
            assert(fs@.map_values(|x: Flow| x@) =~= old(fs)@.map_values(|x: Flow| x@).push(fv));
        },
    }
}


/// The first word of each line of a section, appended to `acc`.
fn collect_first_words(lines: &Vec<Vec<char>>, start: usize, acc: &mut Vec<String>) -> (res: usize)
    requires
        start <= lines.len(),
    ensures
        res == section_end(seqs_of(lines@), start as int),
        strs_of(final(acc)@) == first_words(seqs_of(lines@), start as int, strs_of(old(acc)@)),
{
    let ghost ls = seqs_of(lines@);
    let mut i = start;
    while i < lines.len()
        invariant
            start <= i <= lines.len(),
            ls == seqs_of(lines@),
            section_end(ls, i as int) == section_end(ls, start as int),
            first_words(ls, i as int, strs_of(acc@)) == first_words(
                ls,
                start as int,
                strs_of(old(acc)@),
            ),
        decreases lines.len() - i,
    {
        let (t, d) = line_info(&lines[i]);
        if t.len() == 0 {
            i += 1;
            continue ;
        }
        if d == 0 {
            return i;
        }
        let w = words_chars(&t);
        if w.len() > 0 {
            let ghost before = acc@;
            acc.push(string_of(&w[0]));
            assert(strs_of(acc@) =~= strs_of(before).push(seqs_of(w@)[0]));
        }
        i += 1;
    }
    i
}

fn parse_vocabulary(lines: &Vec<Vec<char>>, start: usize, spec: &mut EnthSpec) -> (res: usize)
    requires
        start <= lines.len(),
    ensures
        res == section_end(seqs_of(lines@), start as int),
        final(spec)@ == (EnthSpecView {
            vocabulary: first_words(seqs_of(lines@), start as int, old(spec)@.vocabulary),
            ..old(spec)@
        }),
{
    collect_first_words(lines, start, &mut spec.vocabulary)
}

fn parse_secrets(lines: &Vec<Vec<char>>, start: usize, spec: &mut EnthSpec) -> (res: usize)
    requires
        start <= lines.len(),
    ensures
        res == section_end(seqs_of(lines@), start as int),
        final(spec)@ == (EnthSpecView {
            secrets: first_words(seqs_of(lines@), start as int, old(spec)@.secrets),
            ..old(spec)@
        }),
{
    collect_first_words(lines, start, &mut spec.secrets)
}

/// Index of the first `"->"` in `s`.
fn find_arrow(s: &Vec<char>) -> (res: Option<usize>)
    ensures
        match res {
            Some(k) => first_arrow(s@, k as int),
            None => !has_arrow(s@),
        },
{
    let mut k: usize = 0;
    while k < s.len() && s.len() - k > 1
        invariant
            k <= s.len(),
            forall|j: int| 0 <= j < k ==> !arrow_at(s@, j),
        decreases s.len() - k,
    {
        if s[k] == '-' && s[k + 1] == '>' {
            return Some(k);
        }
        k += 1;
    }
    assert forall|j: int| !arrow_at(s@, j) by {
        if 0 <= j < k {
        }
    }
    None
}

proof fn lemma_split_arrow_step(s: Seq<char>, k: int)
    requires
        first_arrow(s, k),
    ensures
        split_arrow(s) == seq![s.take(k)] + split_arrow(s.skip(k + 2)),
{
    let c = choose|c: int| first_arrow(s, c);
    assert(first_arrow(s, c));
    if c < k {
        assert(!arrow_at(s, c));
    }
    if k < c {
        assert(!arrow_at(s, k));
    }
}

proof fn lemma_split_arrow_none(s: Seq<char>)
    requires
        !has_arrow(s),
    ensures
        split_arrow(s) == seq![s],
{
    if exists|k: int| first_arrow(s, k) {
        let k = choose|k: int| first_arrow(s, k);
        assert(arrow_at(s, k));
    }
}

proof fn lemma_split_arrow_len(s: Seq<char>)
    ensures
        split_arrow(s).len() >= 1,
{
}

/// A `TRANSFORM` line.
fn transform_line(t: &Vec<char>) -> (res: Option<Transform>)
    ensures
        match res {
            Some(tr) => transform_of(t@) == Some(tr@),
            None => transform_of(t@) is None,
        },
{
    let a = find_arrow(t);
    let p = find_char(t, ':');
    if a.is_none() || p >= t.len() {
        if let Some(k) = a {
            assert(arrow_at(t@, k as int));
        }
        return None;
    }
    proof {
        let k = a.unwrap();
        assert(arrow_at(t@, k as int));
        lemma_lead(t@, other_than(':'));
    }
    let arrow = slice_of(t, 0, p);
    assert(arrow@ =~= t@.take(p as int));
    match find_arrow(&arrow) {
        None => {
            proof {
                lemma_split_arrow_none(arrow@);
            }
            None
        },
        Some(k) => {
            let rest = slice_of(&arrow, k + 2, arrow.len());
            assert(rest@ =~= arrow@.skip(k + 2));
            proof {
                lemma_split_arrow_step(arrow@, k as int);
            }
            match find_arrow(&rest) {
                Some(k2) => {
                    proof {
                        lemma_split_arrow_step(rest@, k2 as int);
                        lemma_split_arrow_len(rest@.skip(k2 + 2));
                    }
                    None
                },
                None => {
                    proof {
                        lemma_split_arrow_none(rest@);
                    }
                    let head = slice_of(&arrow, 0, k);
                    assert(head@ =~= arrow@.take(k as int));
                    let src = trim_chars(&head);
                    let tgt = trim_chars(&rest);
                    let acts_src = slice_of(t, p + 1, t.len());
                    assert(acts_src@ =~= t@.skip(p + 1));
                    let acts = split_list_chars(&acts_src);
                    let tr = Transform {
                        source: string_of(&src),
                        target: string_of(&tgt),
                        actions: strings_of(&acts),
                    };
                    assert(tr@ =~= transform_of(t@).unwrap());
                    Some(tr)
                },
            }
        },
    }
}

fn parse_transform(lines: &Vec<Vec<char>>, start: usize, spec: &mut EnthSpec) -> (res: usize)
    requires
        start <= lines.len(),
    ensures
        res == section_end(seqs_of(lines@), start as int),
        final(spec)@ == (EnthSpecView {
            transforms: transform_section(seqs_of(lines@), start as int, old(spec)@.transforms),
            ..old(spec)@
        }),
{
    let ghost ls = seqs_of(lines@);
    let mut i = start;
    while i < lines.len()
        invariant
            start <= i <= lines.len(),
            ls == seqs_of(lines@),
            section_end(ls, i as int) == section_end(ls, start as int),
            spec@ == (EnthSpecView { transforms: spec@.transforms, ..old(spec)@ }),
            transform_section(ls, i as int, spec@.transforms) == transform_section(
                ls,
                start as int,
                old(spec)@.transforms,
            ),
        decreases lines.len() - i,
    {
        let (t, d) = line_info(&lines[i]);
        if t.len() == 0 {
            i += 1;
            continue ;
        }
        if d == 0 {
            return i;
        }
        if let Some(tr) = transform_line(&t) {
            let ghost before = spec.transforms@;
            let ghost tv = tr@;
            spec.transforms.push(tr);
            assert(spec.transforms@.map_values(|x: Transform| x@) =~= before.map_values(
                |x: Transform| x@,
            ).push(tv));
        }
        i += 1;
    }
    i
}


fn apply_layer_property(l: &mut Layer, key: &Vec<char>, v: &Vec<char>)
    ensures
        final(l)@ == layer_property(old(l)@, key@, v@),
{
    if eq_str(key, "OWNS") {
        l.owns = strings_of(&split_list_chars(v));
    } else if eq_str(key, "CAN") {
        l.can = strings_of(&split_list_chars(v));
    } else if eq_str(key, "CANNOT") {
        l.cannot = strings_of(&split_list_chars(v));
    } else if eq_str(key, "CALLS") {
        l.calls = strings_of(&split_list_chars(v));
    } else if eq_str(key, "NEVER") {
        let ghost before = l.never@;
        l.never.push(string_of(v));
        assert(strs_of(l.never@) =~= strs_of(before).push(v@));
    } else if eq_str(key, "LATENCY") {
        l.latency = Some(string_of(v));
    }
}

/// A property line inside the layer named `cur`.
fn layer_line_exec(spec: &mut EnthSpec, cur: &String, t: &Vec<char>)
    ensures
        final(spec)@ == layer_line(old(spec)@, cur@, t@),
{
    match split_ws_once_chars(t) {
        None => {},
        Some((key, val)) => {
            match find_layer(&spec.layers, cur) {
                None => {},
                Some(i) => {
                    let v = trim_chars(&val);
                    let ghost before = spec.layers@;
                    apply_layer_property(&mut spec.layers[i], &key, &v);
                    assert(spec.layers@.map_values(|x: Layer| x@) =~= before.map_values(
                        |x: Layer| x@,
                    ).update(i as int, layer_property(before[i as int]@, key@, v@)));
                },
            }
        },
    }
}

fn parse_layers(lines: &Vec<Vec<char>>, start: usize, spec: &mut EnthSpec) -> (res: usize)
    requires
        start <= lines.len(),
    ensures
        res == section_end(seqs_of(lines@), start as int),
        final(spec)@ == layers_section(seqs_of(lines@), start as int, None, old(spec)@),
{
    let ghost ls = seqs_of(lines@);
    let mut i = start;
    let mut cur: Option<String> = None;
    while i < lines.len()
        invariant
            start <= i <= lines.len(),
            ls == seqs_of(lines@),
            section_end(ls, i as int) == section_end(ls, start as int),
            layers_section(ls, i as int, opt_str(cur), spec@) == layers_section(
                ls,
                start as int,
                None,
                old(spec)@,
            ),
        decreases lines.len() - i,
    {
        let (t, d) = line_info(&lines[i]);
        if t.len() == 0 {
            i += 1;
            continue ;
        }
        if d == 0 {
            return i;
        }
        if d <= 2 {
            let name = string_of(&t);
            let n2 = name.clone();
            let n3 = name.clone();
            let ghost before = spec@;
            spec.layers_order.push(name);
            assert(strs_of(spec.layers_order@) =~= before.layers_order.push(t@));
            upsert_layer_exec(&mut spec.layers, new_layer_exec(n2));
            cur = Some(n3);
        } else {
            match &cur {
                Some(c) => {
                    layer_line_exec(spec, c, &t);
                },
                None => {},
            }
        }
        i += 1;
    }
    i
}

fn apply_flow_property(f: &mut Flow, first: &Vec<char>, rest: &Vec<char>)
    ensures
        final(f)@ == flow_property(old(f)@, first@, rest@),
{
    let ghost fv = old(f)@;
    let mut numbered = false;
    if first.len() > 0 && first[first.len() - 1] == '.' {
        let digits = slice_of(first, 0, first.len() - 1);
        assert(digits@ =~= first@.drop_last());
        let mut all = true;
        let mut j: usize = 0;
        while j < digits.len()
            invariant
                j <= digits.len(),
                all == (forall|q: int| 0 <= q < j ==> is_ascii_digit(#[trigger] digits@[q])),
            decreases digits.len() - j,
        {
            if !is_digit(digits[j]) {
                all = false;
            }
            j += 1;
        }
        assert(all == all_digits(digits@));
        if all {
            numbered = true;
            let num = parse_step_number(&digits);
            let dpos = find_char(rest, '.');
            proof {
                lemma_lead(rest@, other_than('.'));
            }
            let step = if dpos < rest.len() {
                let subj = slice_of(rest, 0, dpos);
                let act = slice_of(rest, dpos + 1, rest.len());
                assert(subj@ =~= rest@.take(dpos as int));
                assert(act@ =~= rest@.skip(dpos + 1));
                FlowStep {
                    number: num,
                    subject: string_of(&trim_chars(&subj)),
                    action: string_of(&trim_chars(&act)),
                }
            } else {
                FlowStep { number: num, subject: String::new(), action: string_of(rest) }
            };
            let ghost before = f.steps@;
            let ghost sv = step@;
            f.steps.push(step);
            assert(f.steps@.map_values(|x: FlowStep| x@) =~= before.map_values(|x: FlowStep| x@).push(
                sv,
            ));
        }
    }
    proof {
        if ends_with(first@, seq!['.']) {
            assert(first@.len() > 0);
            assert(first@.skip(first@.len() - 1)[0] == seq!['.'][0]);
            assert(first@[first@.len() - 1] == '.');
        }
        if first@.len() > 0 && first@[first@.len() - 1] == '.' {
            assert(first@.skip(first@.len() - 1) =~= seq!['.']);
        }
    }
    assert(numbered == (ends_with(first@, seq!['.']) && all_digits(first@.drop_last())));
    if numbered {
        assert(f@ =~= flow_property(fv, first@, rest@));
        return ;
    }
    assert(f@ == fv);
    if eq_str(first, "ROLLBACK") {
        f.rollback = strings_of(&split_list_chars(rest));
    } else if eq_str(first, "ATOMIC") {
        let low = string_of(&lowercase_chars(rest));
        f.atomic = Some(atomic_flag(low.as_str()));
    } else if eq_str(first, "TIMEOUT") {
        f.timeout = Some(string_of(rest));
    } else if eq_str(first, "RETRY") {
        if let Some(n) = parse_i32_chars(rest) {
            f.retry = Some(n);
        }
    }
    assert(f@ =~= flow_property(fv, first@, rest@));
}

/// The `ATOMIC` flag of a flow from its value, already lowercased: set exactly
/// when the value is `true`.
pub fn atomic_flag(lowered: &str) -> (res: bool)
    ensures
        res == (lowered@ == "true"@),
{
    eq_str(&chars_of(lowered), "true")
}

/// A line inside the flow named `cur`.
fn flow_line_exec(spec: &mut EnthSpec, cur: &String, t: &Vec<char>)
    ensures
        final(spec)@ == flow_line(old(spec)@, cur@, t@),
{
    let (first, rest) = match split_ws_once_chars(t) {
        Some((a, b)) => (trim_chars(&a), trim_chars(&b)),
        None => (slice_of(t, 0, t.len()), Vec::new()),
    };
    assert(t@.subrange(0, t@.len() as int) =~= t@);
    match find_flow(&spec.flows, cur) {
        None => {},
        Some(i) => {
            let ghost before = spec.flows@;
            apply_flow_property(&mut spec.flows[i], &first, &rest);
            assert(spec.flows@.map_values(|x: Flow| x@) =~= before.map_values(|x: Flow| x@).update(
                i as int,
                flow_property(before[i as int]@, first@, rest@),
            ));
        },
    }
}

/// `SUBJECT KEYWORD qualifier...` in `CONTRACTS`.
fn contract_line_exec(spec: &mut EnthSpec, t: &Vec<char>)
    ensures
        final(spec)@ == contract_line(old(spec)@, t@),
{
    let parts = words_chars(t);
    if parts.len() >= 3 {
        let kw = &parts[1];
        if eq_str(kw, "ALWAYS") || eq_str(kw, "NEVER") || eq_str(kw, "REQUIRES") {
            let mut tail: Vec<Vec<char>> = Vec::new();
            let mut j: usize = 2;
            while j < parts.len()
                invariant
                    2 <= j <= parts.len(),
                    seqs_of(tail@) == seqs_of(parts@).subrange(2, j as int),
                decreases parts.len() - j,
            {
                let w = slice_of(&parts[j], 0, parts[j].len());
                assert(w@ =~= parts@[j as int]@);
                let ghost before = tail@;
                tail.push(w);
                assert(seqs_of(tail@) =~= seqs_of(before).push(w@));
                assert(seqs_of(tail@) =~= seqs_of(parts@).subrange(2, j + 1));
                j += 1;
            }
            assert(seqs_of(parts@).subrange(2, parts@.len() as int) =~= seqs_of(parts@).skip(2));
            let qual = join_chars(&tail, " ");
            let c = Contract {
                subject: string_of(&parts[0]),
                keyword: string_of(kw),
                qualifier: string_of(&qual),
            };
            let ghost before = spec.contracts@;
            let ghost cv = c@;
            spec.contracts.push(c);
            assert(spec.contracts@.map_values(|x: Contract| x@) =~= before.map_values(
                |x: Contract| x@,
            ).push(cv));
        }
    }
}

fn parse_contracts(lines: &Vec<Vec<char>>, start: usize, spec: &mut EnthSpec) -> (res: usize)
    requires
        start <= lines.len(),
    ensures
        res == section_end(seqs_of(lines@), start as int),
        final(spec)@ == contracts_section(seqs_of(lines@), start as int, None, old(spec)@),
{
    let ghost ls = seqs_of(lines@);
    let mut i = start;
    let mut cur: Option<String> = None;
    while i < lines.len()
        invariant
            start <= i <= lines.len(),
            ls == seqs_of(lines@),
            section_end(ls, i as int) == section_end(ls, start as int),
            contracts_section(ls, i as int, opt_str(cur), spec@) == contracts_section(
                ls,
                start as int,
                None,
                old(spec)@,
            ),
        decreases lines.len() - i,
    {
        let (t, d) = line_info(&lines[i]);
        if t.len() == 0 {
            i += 1;
            continue ;
        }
        if d == 0 {
            return i;
        }
        if d <= 2 {
            match strip_prefix(&t, "FLOW ") {
                Some(r) => {
                    let name = string_of(&trim_chars(&r));
                    let n2 = name.clone();
                    let n3 = name.clone();
                    let ghost before = spec@;
                    let ghost nv = name@;
                    spec.flows_order.push(name);
                    assert(strs_of(spec.flows_order@) =~= before.flows_order.push(nv));
                    upsert_flow_exec(&mut spec.flows, new_flow_exec(n2));
                    cur = Some(n3);
                },
                None => {
                    cur = None;
                    contract_line_exec(spec, &t);
                },
            }
        } else {
            match &cur {
                Some(c) => {
                    flow_line_exec(spec, c, &t);
                },
                None => {},
            }
        }
        i += 1;
    }
    i
}

fn project_entry_exec(spec: &mut EnthSpec, t: &Vec<char>)
    ensures
        final(spec)@ == project_entry(old(spec)@, t@),
{
    match split_ws_once_chars(t) {
        None => {},
        Some((key, val)) => {
            let k = trim_chars(&key);
            let v = trim_chars(&trim_quotes_chars(&trim_chars(&val)));
            let value = if eq_str(&k, "STACK") {
                ProjectValue::List(strings_of(&split_list_chars(&v)))
            } else {
                ProjectValue::Str(string_of(&v))
            };
            project_insert(&mut spec.project, string_of(&k), value);
        },
    }
}

fn deps_entry_exec(deps: &mut Vec<(String, Vec<String>)>, t: &Vec<char>)
    ensures
        deps_view(final(deps)@) == deps_entry(deps_view(old(deps)@), t@),
{
    match split_ws_once_chars(t) {
        None => {},
        Some((key, val)) => {
            let k = trim_chars(&key);
            if eq_str(&k, "SYSTEM") || eq_str(&k, "RUNTIME") || eq_str(&k, "DEV") {
                let v = trim_chars(&val);
                deps_insert(deps, string_of(&k), strings_of(&split_list_chars(&v)));
            }
        },
    }
}

fn finish_deps(spec: &mut EnthSpec, deps: Vec<(String, Vec<String>)>)
    ensures
        final(spec)@ == with_deps(old(spec)@, deps_view(deps@)),
{
    if deps.len() > 0 {
        let key = string_of(&chars_of("DEPS"));
        project_insert(&mut spec.project, key, ProjectValue::Deps(deps));
    }
}

fn parse_project(lines: &Vec<Vec<char>>, start: usize, spec: &mut EnthSpec) -> (res: usize)
    requires
        start <= lines.len(),
    ensures
        res == section_end(seqs_of(lines@), start as int),
        final(spec)@ == project_section(seqs_of(lines@), start as int, false, Seq::empty(), old(spec)@),
{
    let ghost ls = seqs_of(lines@);
    let mut i = start;
    let mut in_deps = false;
    let mut deps: Vec<(String, Vec<String>)> = Vec::new();
    assert(deps_view(deps@) =~= Seq::<(Seq<char>, Seq<Seq<char>>)>::empty());
    while i < lines.len()
        invariant
            start <= i <= lines.len(),
            ls == seqs_of(lines@),
            section_end(ls, i as int) == section_end(ls, start as int),
            project_section(ls, i as int, in_deps, deps_view(deps@), spec@) == project_section(
                ls,
                start as int,
                false,
                Seq::empty(),
                old(spec)@,
            ),
        decreases lines.len() - i,
    {
        let (t, d) = line_info(&lines[i]);
        if t.len() == 0 {
            i += 1;
            continue ;
        }
        if d == 0 {
            finish_deps(spec, deps);
            return i;
        }
        if d <= 2 {
            in_deps = eq_str(&t, "DEPS");
            if !in_deps {
                project_entry_exec(spec, &t);
            }
        } else if in_deps {
            deps_entry_exec(&mut deps, &t);
        }
        i += 1;
    }
    finish_deps(spec, deps);
    i
}

fn empty_enth_spec(source_file: &str) -> (res: EnthSpec)
    ensures
        res@ == empty_spec(source_file@),
{
    let r = EnthSpec {
        source_file: string_of(&chars_of(source_file)),
        version: String::new(),
        project: Vec::new(),
        vocabulary: Vec::new(),
        entities: Vec::new(),
        transforms: Vec::new(),
        layers: Vec::new(),
        layers_order: Vec::new(),
        contracts: Vec::new(),
        flows: Vec::new(),
        flows_order: Vec::new(),
        secrets: Vec::new(),
    };
    assert(r@ =~= empty_spec(source_file@));
    r
}

fn find_project_name(spec: &EnthSpec) -> (res: bool)
    ensures
        res == (assoc_get(spec@.project, "NAME"@) is Some),
{
    let key = string_of(&chars_of("NAME"));
    find_project_key(&spec.project, &key).is_some()
}

/// The comma-separated items of `s`, trimmed, with the empty ones dropped.
pub fn split_list(s: &str) -> (res: Vec<String>)
    ensures
        strs_of(res@) == comma_list(s@),
{
    strings_of(&split_list_chars(&chars_of(s)))
}

/// Reads the spec that a file named `source_file` with text `content` describes;
/// it holds each name once, and its order lists name exactly its layers and flows.
pub fn parse(source_file: &str, content: &str) -> (spec: EnthSpec)
    ensures
        spec@ == parse_spec(source_file@, content@),
        spec@.well_formed(),
{
    proof {
        law_parse_well_formed(source_file@, content@);
    }
    let cv = chars_of(content);
    let lns = lines_chars(&cv);
    let ghost ls = seqs_of(lns@);
    let mut spec = empty_enth_spec(source_file);
    let mut i: usize = 0;
    while i < lns.len()
        invariant
            i <= lns.len(),
            ls == seqs_of(lns@),
            ls == lines(content@),
            parse_lines(ls, i as int, spec@) == parse_spec(source_file@, content@),
        decreases lns.len() - i,
    {
        let (t, d) = line_info(&lns[i]);
        if t.len() == 0 || d > 0 {
            i += 1;
            continue ;
        }
        let ghost s0 = spec@;
        let ghost step = top_step(ls, i as int, s0);
        proof {
            lemma_top_step(ls, i as int, s0);
            lemma_section_end(ls, i + 1);
        }
        if let Some(r) = strip_prefix(&t, "VERSION ") {
            spec.version = string_of(&trim_chars(&r));
            i += 1;
        } else if eq_str(&t, "PROJECT") || starts_with_str(&t, "PROJECT ") {
            if let Some(r) = strip_prefix(&t, "PROJECT ") {
                if !find_project_name(&spec) {
                    let key = string_of(&chars_of("NAME"));
                    let name = string_of(&trim_chars(&r));
                    project_insert(&mut spec.project, key, ProjectValue::Str(name));
                }
            }
            assert(spec@ == project_header(s0, t@));
            i = parse_project(&lns, i + 1, &mut spec);
        } else if eq_str(&t, "VOCABULARY") {
            i = parse_vocabulary(&lns, i + 1, &mut spec);
        } else if let Some(r) = strip_prefix(&t, "ENTITY ") {
            spec.entities = strings_of(&split_list_chars(&r));
            i += 1;
        } else if eq_str(&t, "TRANSFORM") {
            i = parse_transform(&lns, i + 1, &mut spec);
        } else if eq_str(&t, "LAYERS") {
            i = parse_layers(&lns, i + 1, &mut spec);
        } else if eq_str(&t, "CONTRACTS") {
            i = parse_contracts(&lns, i + 1, &mut spec);
        } else if eq_str(&t, "SECRETS") {
            i = parse_secrets(&lns, i + 1, &mut spec);
        } else {
            i += 1;
        }
        assert(i == step.0 && spec@ == step.1);
    }
    spec
}

} // verus!
