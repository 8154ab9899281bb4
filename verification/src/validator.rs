//! The thirteen rules that a well-formed `.enth` spec obeys.
use vstd::prelude::*;
use crate::parser::{
    EnthSpec, EnthSpecView, FlowView, LayerView, TransformView, ContractView, FlowStepView,
};
use crate::text::{
    append, append_str, chars_of, decimal, ends_with, is_ascii_digit, is_ascii_lower,
    is_ascii_upper, is_digit, is_lower, is_upper, join, lines, lines_chars, pos, push_decimal,
    seqs_of, starts_with, starts_with_str, string_of, trim, trim_chars, find_char, slice_of,
    lemma_lead, other_than, eq_chars, chars_list,
};

verus! {

pub struct ValidationError {
    pub rule: usize,
    pub message: String,
    pub severity: String,
}

#[verifier::ext_equal]
pub struct ValidationErrorView {
    pub rule: usize,
    pub message: Seq<char>,
    pub severity: Seq<char>,
}

impl View for ValidationError {
    type V = ValidationErrorView;

    open spec fn view(&self) -> ValidationErrorView {
        ValidationErrorView { rule: self.rule, message: self.message@, severity: self.severity@ }
    }
}

pub open spec fn errors_view(v: Seq<ValidationError>) -> Seq<ValidationErrorView> {
    v.map_values(|e: ValidationError| e@)
}

// ---------------------------------------------------------------------------
// Naming conventions
// ---------------------------------------------------------------------------

/// `UPPER_CASE`: an ASCII capital, then capitals, digits and underscores.
pub open spec fn upper_case(s: Seq<char>) -> bool {
    s.len() > 0 && is_ascii_upper(s[0]) && forall|i: int|
        1 <= i < s.len() ==> is_ascii_upper(#[trigger] s[i]) || is_ascii_digit(s[i]) || s[i] == '_'
}

/// `PascalCase`: an ASCII capital, then ASCII letters and digits.
pub open spec fn pascal_case(s: Seq<char>) -> bool {
    s.len() > 0 && is_ascii_upper(s[0]) && forall|i: int|
        1 <= i < s.len() ==> is_ascii_upper(#[trigger] s[i]) || is_ascii_lower(s[i])
            || is_ascii_digit(s[i])
}

/// `snake_case`: an ASCII lowercase letter, then lowercase letters, digits and underscores.
pub open spec fn snake_case(s: Seq<char>) -> bool {
    s.len() > 0 && is_ascii_lower(s[0]) && forall|i: int|
        1 <= i < s.len() ==> is_ascii_lower(#[trigger] s[i]) || is_ascii_digit(s[i]) || s[i] == '_'
}

fn is_upper_case(s: &Vec<char>) -> (res: bool)
    ensures
        res == upper_case(s@),
{
    if s.len() == 0 || !is_upper(s[0]) {
        return false;
    }
    let mut i: usize = 1;
    while i < s.len()
        invariant
            1 <= i <= s.len(),
            forall|j: int| 1 <= j < i ==> is_ascii_upper(#[trigger] s@[j]) || is_ascii_digit(s@[j]) || s@[j] == '_',
        decreases s.len() - i,
    {
        let c = s[i];
        if !(is_upper(c) || is_digit(c) || c == '_') {
            return false;
        }
        i += 1;
    }
    true
}

fn is_pascal_case(s: &Vec<char>) -> (res: bool)
    ensures
        res == pascal_case(s@),
{
    if s.len() == 0 || !is_upper(s[0]) {
        return false;
    }
    let mut i: usize = 1;
    while i < s.len()
        invariant
            1 <= i <= s.len(),
            forall|j: int| 1 <= j < i ==> is_ascii_upper(#[trigger] s@[j]) || is_ascii_lower(s@[j]) || is_ascii_digit(s@[j]),
        decreases s.len() - i,
    {
        let c = s[i];
        if !(is_upper(c) || is_lower(c) || is_digit(c)) {
            return false;
        }
        i += 1;
    }
    true
}

fn is_snake_case(s: &Vec<char>) -> (res: bool)
    ensures
        res == snake_case(s@),
{
    if s.len() == 0 || !is_lower(s[0]) {
        return false;
    }
    let mut i: usize = 1;
    while i < s.len()
        invariant
            1 <= i <= s.len(),
            forall|j: int| 1 <= j < i ==> is_ascii_lower(#[trigger] s@[j]) || is_ascii_digit(s@[j]) || s@[j] == '_',
        decreases s.len() - i,
    {
        let c = s[i];
        if !(is_lower(c) || is_digit(c) || c == '_') {
            return false;
        }
        i += 1;
    }
    true
}

// ---------------------------------------------------------------------------
// The rules
// ---------------------------------------------------------------------------

pub open spec fn err(rule: usize, message: Seq<char>) -> ValidationErrorView {
    ValidationErrorView { rule, message, severity: "ERROR"@ }
}

pub open spec fn err_if(cond: bool, rule: usize, message: Seq<char>) -> Seq<ValidationErrorView> {
    if cond {
        seq![err(rule, message)]
    } else {
        Seq::empty()
    }
}

/// `'s'`
pub open spec fn quoted(s: Seq<char>) -> Seq<char> {
    "'"@ + s + "'"@
}

/// Rule 1: `VERSION` must be present.
pub open spec fn rule_version(s: EnthSpecView) -> Seq<ValidationErrorView> {
    err_if(s.version.len() == 0, 1, "VERSION is missing"@)
}

/// Rule 2: `ENTITY` must declare at least one entity.
pub open spec fn rule_entity_declared(s: EnthSpecView) -> Seq<ValidationErrorView> {
    err_if(s.entities.len() == 0, 2, "ENTITY must declare at least one entity"@)
}

pub open spec fn undeclared_in_transform(ents: Seq<Seq<char>>, name: Seq<char>) -> Seq<ValidationErrorView> {
    err_if(!ents.contains(name), 3, "TRANSFORM references undeclared entity "@ + quoted(name))
}

pub open spec fn transform_items(ents: Seq<Seq<char>>, ts: Seq<TransformView>) -> Seq<Seq<ValidationErrorView>> {
    ts.map_values(
        |t: TransformView| undeclared_in_transform(ents, t.source) + undeclared_in_transform(ents, t.target),
    )
}

/// Rule 3: the entities that a `TRANSFORM` names must be declared.
pub open spec fn transform_errors(ents: Seq<Seq<char>>, ts: Seq<TransformView>) -> Seq<ValidationErrorView> {
    transform_items(ents, ts).flatten_alt()
}

/// The part of a contract subject before its first `.`.
pub open spec fn subject_base(subject: Seq<char>) -> Seq<char> {
    subject.take(pos(subject, '.') as int)
}

pub open spec fn contract_error(ents: Seq<Seq<char>>, c: ContractView) -> Seq<ValidationErrorView> {
    let base = subject_base(c.subject);
    err_if(
        base != "*"@ && !ents.contains(base),
        4,
        "CONTRACTS subject "@ + quoted(c.subject) + " references undeclared entity "@ + quoted(base),
    )
}

pub open spec fn contract_items(ents: Seq<Seq<char>>, cs: Seq<ContractView>) -> Seq<Seq<ValidationErrorView>> {
    cs.map_values(|c: ContractView| contract_error(ents, c))
}

/// Rule 4: a contract's subject names a declared entity, or `*`.
pub open spec fn contract_errors(ents: Seq<Seq<char>>, cs: Seq<ContractView>) -> Seq<ValidationErrorView> {
    contract_items(ents, cs).flatten_alt()
}

pub open spec fn step_error(ents: Seq<Seq<char>>, flow: Seq<char>, st: FlowStepView) -> Seq<ValidationErrorView> {
    err_if(
        st.subject.len() > 0 && !ents.contains(st.subject),
        5,
        "FLOW "@ + quoted(flow) + " step "@ + decimal(st.number as nat) + " references undeclared entity "@
            + quoted(st.subject),
    )
}

pub open spec fn flow_step_items(ents: Seq<Seq<char>>, f: FlowView) -> Seq<Seq<ValidationErrorView>> {
    f.steps.map_values(|st: FlowStepView| step_error(ents, f.name, st))
}

pub open spec fn step_entity_items(ents: Seq<Seq<char>>, fs: Seq<FlowView>) -> Seq<Seq<ValidationErrorView>> {
    fs.map_values(|f: FlowView| flow_step_items(ents, f).flatten_alt())
}

/// Rule 5: the subject of a flow step, when it has one, is a declared entity.
pub open spec fn step_entity_errors(ents: Seq<Seq<char>>, fs: Seq<FlowView>) -> Seq<ValidationErrorView> {
    step_entity_items(ents, fs).flatten_alt()
}

/// The step numbers of a flow.
pub open spec fn step_numbers(f: FlowView) -> Seq<usize> {
    f.steps.map_values(|st: FlowStepView| st.number)
}

/// Steps numbered `1, 2, ..., n` in order.
pub open spec fn sequential(nums: Seq<usize>) -> bool {
    forall|i: int| 0 <= i < nums.len() ==> #[trigger] nums[i] == i + 1
}

/// `{:?}` of a list of numbers: `[1, 2, 3]`.
pub open spec fn debug_list(nums: Seq<usize>) -> Seq<char> {
    "["@ + join(nums.map_values(|n: usize| decimal(n as nat)), ", "@) + "]"@
}

pub open spec fn sequence_error(f: FlowView) -> Seq<ValidationErrorView> {
    err_if(
        !sequential(step_numbers(f)),
        6,
        "FLOW "@ + quoted(f.name) + " steps are not sequential from 1: "@ + debug_list(step_numbers(f)),
    )
}

pub open spec fn sequence_items(fs: Seq<FlowView>) -> Seq<Seq<ValidationErrorView>> {
    fs.map_values(|f: FlowView| sequence_error(f))
}

/// Rule 6: the steps of a flow are numbered from 1 without gaps.
pub open spec fn sequence_errors(fs: Seq<FlowView>) -> Seq<ValidationErrorView> {
    sequence_items(fs).flatten_alt()
}

pub open spec fn length_error(f: FlowView) -> Seq<ValidationErrorView> {
    err_if(
        f.steps.len() < 2,
        7,
        "FLOW "@ + quoted(f.name) + " must have at least 2 steps (has "@ + decimal(f.steps.len()) + ")"@,
    )
}

pub open spec fn length_items(fs: Seq<FlowView>) -> Seq<Seq<ValidationErrorView>> {
    fs.map_values(|f: FlowView| length_error(f))
}

/// Rule 7: a flow has at least two steps.
pub open spec fn length_errors(fs: Seq<FlowView>) -> Seq<ValidationErrorView> {
    length_items(fs).flatten_alt()
}

pub open spec fn name_items(
    names: Seq<Seq<char>>,
    rule: usize,
    ok: spec_fn(Seq<char>) -> bool,
    what: Seq<char>,
) -> Seq<Seq<ValidationErrorView>> {
    names.map_values(|n: Seq<char>| err_if(!ok(n), rule, what + quoted(n)))
}

pub open spec fn upper_case_fn() -> spec_fn(Seq<char>) -> bool {
    |n: Seq<char>| upper_case(n)
}

pub open spec fn pascal_case_fn() -> spec_fn(Seq<char>) -> bool {
    |n: Seq<char>| pascal_case(n)
}

pub open spec fn snake_case_fn() -> spec_fn(Seq<char>) -> bool {
    |n: Seq<char>| snake_case(n)
}

/// Rule 8: layer names are `UPPER_CASE`.
pub open spec fn layer_name_errors(ls: Seq<LayerView>) -> Seq<ValidationErrorView> {
    name_items(layer_names(ls), 8, upper_case_fn(), "LAYERS name must be UPPER_CASE: "@).flatten_alt()
}

/// Rule 9: vocabulary entries are `PascalCase`.
pub open spec fn vocabulary_errors(vs: Seq<Seq<char>>) -> Seq<ValidationErrorView> {
    name_items(vs, 9, pascal_case_fn(), "VOCABULARY entry must be PascalCase: "@).flatten_alt()
}

/// Rule 10: entity identifiers are `snake_case`.
pub open spec fn entity_name_errors(es: Seq<Seq<char>>) -> Seq<ValidationErrorView> {
    name_items(es, 10, snake_case_fn(), "ENTITY identifier must be snake_case: "@).flatten_alt()
}

pub open spec fn vault_line_error(n: nat, line: Seq<char>) -> Seq<ValidationErrorView> {
    err_if(
        starts_with(trim(line), "VAULT "@),
        11,
        "VAULT block in enthropic.enth at line "@ + decimal(n + 1) + " — secrets must live in vault_*.enth"@,
    )
}

pub open spec fn vault_block_items(ls: Seq<Seq<char>>) -> Seq<Seq<ValidationErrorView>> {
    ls.map(|i: int, l: Seq<char>| vault_line_error(i as nat, l))
}

pub open spec fn vault_block_errors(ls: Seq<Seq<char>>) -> Seq<ValidationErrorView> {
    vault_block_items(ls).flatten_alt()
}

/// Rule 11 applies to the main spec file, `enthropic.enth`, when its text could be read.
pub open spec fn rule_vault(s: EnthSpecView, source_text: Option<Seq<char>>) -> Seq<ValidationErrorView> {
    match source_text {
        Some(raw) => if ends_with(s.source_file, "enthropic.enth"@) {
            vault_block_errors(lines(raw))
        } else {
            Seq::empty()
        },
        None => Seq::empty(),
    }
}

pub open spec fn layer_names(ls: Seq<LayerView>) -> Seq<Seq<char>> {
    ls.map_values(|l: LayerView| l.name)
}

pub open spec fn call_items(declared: Seq<Seq<char>>, l: LayerView) -> Seq<Seq<ValidationErrorView>> {
    l.calls.map_values(
        |r: Seq<char>| err_if(
            !declared.contains(r),
            12,
            "LAYERS "@ + quoted(l.name) + " CALLS undeclared layer "@ + quoted(r),
        ),
    )
}

pub open spec fn layer_calls_items(ls: Seq<LayerView>) -> Seq<Seq<ValidationErrorView>> {
    ls.map_values(|l: LayerView| call_items(layer_names(ls), l).flatten_alt())
}

/// Rule 12: a layer `CALLS` only declared layers.
pub open spec fn layer_calls_errors(ls: Seq<LayerView>) -> Seq<ValidationErrorView> {
    layer_calls_items(ls).flatten_alt()
}

/// Rule 13: secret names are `UPPER_CASE`.
pub open spec fn secret_name_errors(ss: Seq<Seq<char>>) -> Seq<ValidationErrorView> {
    name_items(ss, 13, upper_case_fn(), "SECRETS entry must be UPPER_CASE: "@).flatten_alt()
}

/// All violations of a spec, rule by rule, each rule's in the order of the spec's items.
pub open spec fn validation_errors(s: EnthSpecView, source_text: Option<Seq<char>>) -> Seq<
    ValidationErrorView,
> {
    rule_version(s) + rule_entity_declared(s) + transform_errors(s.entities, s.transforms)
        + contract_errors(s.entities, s.contracts) + step_entity_errors(s.entities, s.flows)
        + sequence_errors(s.flows) + length_errors(s.flows) + layer_name_errors(s.layers)
        + vocabulary_errors(s.vocabulary) + entity_name_errors(s.entities) + rule_vault(
        s,
        source_text,
    ) + layer_calls_errors(s.layers) + secret_name_errors(s.secrets)
}


// ---------------------------------------------------------------------------
// Laws
// ---------------------------------------------------------------------------

/// Every error in `es` is an `ERROR` of rule `r`.
pub open spec fn all_of_rule(es: Seq<ValidationErrorView>, r: usize) -> bool {
    forall|i: int| 0 <= i < es.len() ==> (#[trigger] es[i]).rule == r && es[i].severity == "ERROR"@
}

pub open spec fn items_of_rule(items: Seq<Seq<ValidationErrorView>>, r: usize) -> bool {
    forall|i: int| 0 <= i < items.len() ==> all_of_rule(#[trigger] items[i], r)
}

/// Errors in order of their rules, each an `ERROR`, none of a rule above `hi`.
pub open spec fn ordered_up_to(es: Seq<ValidationErrorView>, hi: usize) -> bool {
    &&& forall|i: int| 0 <= i < es.len() ==> (#[trigger] es[i]).rule <= hi && es[i].severity == "ERROR"@
    &&& forall|i: int, j: int| 0 <= i < j < es.len() ==> (#[trigger] es[i]).rule <= (#[trigger] es[j]).rule
}

proof fn lemma_flatten_of_rule(items: Seq<Seq<ValidationErrorView>>, r: usize)
    requires
        items_of_rule(items, r),
    ensures
        all_of_rule(items.flatten_alt(), r),
    decreases items.len(),
{
    if items.len() > 0 {
        let init = items.drop_last();
        assert forall|i: int| 0 <= i < init.len() implies all_of_rule(#[trigger] init[i], r) by {
            assert(init[i] == items[i]);
        }
        lemma_flatten_of_rule(init, r);
        let f = items.flatten_alt();
        assert(f == init.flatten_alt() + items.last());
        assert(all_of_rule(items[items.len() - 1], r));
        assert forall|i: int| 0 <= i < f.len() implies (#[trigger] f[i]).rule == r && f[i].severity == "ERROR"@ by {
            if i < init.flatten_alt().len() {
                assert(f[i] == init.flatten_alt()[i]);
            } else {
                assert(f[i] == items.last()[i - init.flatten_alt().len()]);
            }
        }
    }
}

proof fn lemma_err_if_of_rule(c: bool, r: usize, m: Seq<char>)
    ensures
        all_of_rule(err_if(c, r, m), r),
{
}

proof fn lemma_append_ordered(a: Seq<ValidationErrorView>, b: Seq<ValidationErrorView>, lo: usize, r: usize)
    requires
        ordered_up_to(a, lo),
        lo <= r,
        all_of_rule(b, r),
    ensures
        ordered_up_to(a + b, r),
{
    let ab = a + b;
    assert forall|i: int| 0 <= i < ab.len() implies (#[trigger] ab[i]).rule <= r && ab[i].severity == "ERROR"@ by {
        if i >= a.len() {
            assert(ab[i] == b[i - a.len()]);
        }
    }
    assert forall|i: int, j: int| 0 <= i < j < ab.len() implies (#[trigger] ab[i]).rule <= (#[trigger] ab[j]).rule by {
        if j < a.len() {
            assert(ab[i] == a[i] && ab[j] == a[j]);
        } else if i >= a.len() {
            assert(ab[i] == b[i - a.len()] && ab[j] == b[j - a.len()]);
        } else {
            assert(ab[i] == a[i] && ab[j] == b[j - a.len()]);
        }
    }
}

proof fn lemma_name_items(names: Seq<Seq<char>>, rule: usize, ok: spec_fn(Seq<char>) -> bool, what: Seq<char>)
    ensures
        all_of_rule(name_items(names, rule, ok, what).flatten_alt(), rule),
{
    let items = name_items(names, rule, ok, what);
    assert forall|i: int| 0 <= i < items.len() implies all_of_rule(#[trigger] items[i], rule) by {
        lemma_err_if_of_rule(!ok(names[i]), rule, what + quoted(names[i]));
    }
    lemma_flatten_of_rule(items, rule);
}

/// The errors come rule by rule, in the order of the rules; each is an `ERROR`
/// of one of the thirteen rules.
pub proof fn law_errors_in_rule_order(s: EnthSpecView, source_text: Option<Seq<char>>)
    ensures
        ordered_up_to(validation_errors(s, source_text), 13),
        forall|i: int|
            0 <= i < validation_errors(s, source_text).len() ==> 1 <= (#[trigger] validation_errors(
                s,
                source_text,
            )[i]).rule,
{
    let e0 = Seq::<ValidationErrorView>::empty();
    let r1 = rule_version(s);
    let r2 = rule_entity_declared(s);
    let r3 = transform_errors(s.entities, s.transforms);
    let r4 = contract_errors(s.entities, s.contracts);
    let r5 = step_entity_errors(s.entities, s.flows);
    let r6 = sequence_errors(s.flows);
    let r7 = length_errors(s.flows);
    let r8 = layer_name_errors(s.layers);
    let r9 = vocabulary_errors(s.vocabulary);
    let r10 = entity_name_errors(s.entities);
    let r11 = rule_vault(s, source_text);
    let r12 = layer_calls_errors(s.layers);
    let r13 = secret_name_errors(s.secrets);
    // each block holds errors of its own rule
    let i3 = transform_items(s.entities, s.transforms);
    assert forall|i: int| 0 <= i < i3.len() implies all_of_rule(#[trigger] i3[i], 3) by {
        let t = s.transforms[i];
        let a = undeclared_in_transform(s.entities, t.source);
        let b = undeclared_in_transform(s.entities, t.target);
        assert(i3[i] == a + b);
        assert forall|j: int| 0 <= j < (a + b).len() implies (#[trigger] (a + b)[j]).rule == 3 && (a + b)[j].severity == "ERROR"@ by {
            if j >= a.len() {
                assert((a + b)[j] == b[j - a.len()]);
            }
        }
    }
    lemma_flatten_of_rule(i3, 3);
    lemma_flatten_of_rule(contract_items(s.entities, s.contracts), 4);
    let i5 = step_entity_items(s.entities, s.flows);
    assert forall|i: int| 0 <= i < i5.len() implies all_of_rule(#[trigger] i5[i], 5) by {
        lemma_flatten_of_rule(flow_step_items(s.entities, s.flows[i]), 5);
    }
    lemma_flatten_of_rule(i5, 5);
    lemma_flatten_of_rule(sequence_items(s.flows), 6);
    lemma_flatten_of_rule(length_items(s.flows), 7);
    lemma_name_items(layer_names(s.layers), 8, upper_case_fn(), "LAYERS name must be UPPER_CASE: "@);
    lemma_name_items(s.vocabulary, 9, pascal_case_fn(), "VOCABULARY entry must be PascalCase: "@);
    lemma_name_items(s.entities, 10, snake_case_fn(), "ENTITY identifier must be snake_case: "@);
    if let Some(raw) = source_text {
        if ends_with(s.source_file, "enthropic.enth"@) {
            lemma_flatten_of_rule(vault_block_items(lines(raw)), 11);
        }
    }
    let i12 = layer_calls_items(s.layers);
    assert forall|i: int| 0 <= i < i12.len() implies all_of_rule(#[trigger] i12[i], 12) by {
        lemma_flatten_of_rule(call_items(layer_names(s.layers), s.layers[i]), 12);
    }
    lemma_flatten_of_rule(i12, 12);
    lemma_name_items(s.secrets, 13, upper_case_fn(), "SECRETS entry must be UPPER_CASE: "@);
    // and the blocks come in order
    lemma_append_ordered(e0, r1, 0, 1);
    assert(e0 + r1 =~= r1);
    lemma_append_ordered(r1, r2, 1, 2);
    lemma_append_ordered(r1 + r2, r3, 2, 3);
    lemma_append_ordered(r1 + r2 + r3, r4, 3, 4);
    lemma_append_ordered(r1 + r2 + r3 + r4, r5, 4, 5);
    lemma_append_ordered(r1 + r2 + r3 + r4 + r5, r6, 5, 6);
    lemma_append_ordered(r1 + r2 + r3 + r4 + r5 + r6, r7, 6, 7);
    lemma_append_ordered(r1 + r2 + r3 + r4 + r5 + r6 + r7, r8, 7, 8);
    lemma_append_ordered(r1 + r2 + r3 + r4 + r5 + r6 + r7 + r8, r9, 8, 9);
    lemma_append_ordered(r1 + r2 + r3 + r4 + r5 + r6 + r7 + r8 + r9, r10, 9, 10);
    lemma_append_ordered(r1 + r2 + r3 + r4 + r5 + r6 + r7 + r8 + r9 + r10, r11, 10, 11);
    lemma_append_ordered(r1 + r2 + r3 + r4 + r5 + r6 + r7 + r8 + r9 + r10 + r11, r12, 11, 12);
    lemma_append_ordered(r1 + r2 + r3 + r4 + r5 + r6 + r7 + r8 + r9 + r10 + r11 + r12, r13, 12, 13);
    let all = validation_errors(s, source_text);
    assert forall|i: int| 0 <= i < all.len() implies 1 <= (#[trigger] all[i]).rule by {
        if all[i].rule < 1 {
            if i > 0 {
                assert(all[0].rule <= all[i].rule);
            }
            if r1.len() > 0 {
                assert(all[0] == r1[0]);
            } else if r2.len() > 0 {
                assert(all[0] == (r1 + r2)[0]);
            }
        }
    }
}

// ---------------------------------------------------------------------------
// Executable checks
// ---------------------------------------------------------------------------

proof fn lemma_flatten_step<A>(s: Seq<Seq<A>>, i: int)
    requires
        0 <= i < s.len(),
    ensures
        s.take(i + 1).flatten_alt() == s.take(i).flatten_alt() + s[i],
{
    assert(s.take(i + 1).drop_last() =~= s.take(i));
}

proof fn lemma_flatten_all<A>(s: Seq<Seq<A>>)
    ensures
        s.take(s.len() as int).flatten_alt() == s.flatten_alt(),
{
    assert(s.take(s.len() as int) =~= s);
}

fn push_error(errs: &mut Vec<ValidationError>, rule: usize, msg: &Vec<char>)
    ensures
        errors_view(final(errs)@) == errors_view(old(errs)@).push(err(rule, msg@)),
{
    let e = ValidationError {
        rule,
        message: string_of(msg),
        severity: string_of(&chars_of("ERROR")),
    };
    errs.push(e);
    assert(errors_view(errs@) =~= errors_view(old(errs)@).push(err(rule, msg@)));
}

/// Adds one error when `cond` holds.
fn push_error_if(errs: &mut Vec<ValidationError>, cond: bool, rule: usize, msg: &Vec<char>)
    ensures
        errors_view(final(errs)@) == errors_view(old(errs)@) + err_if(cond, rule, msg@),
{
    if cond {
        push_error(errs, rule, msg);
        assert(errors_view(errs@) =~= errors_view(old(errs)@) + err_if(cond, rule, msg@));
    } else {
        assert(errors_view(errs@) =~= errors_view(old(errs)@) + err_if(cond, rule, msg@));
    }
}

fn layer_name_list(ls: &Vec<crate::parser::Layer>) -> (res: Vec<Vec<char>>)
    ensures
        seqs_of(res@) == layer_names(ls@.map_values(|l: crate::parser::Layer| l@)),
{
    let ghost lv = ls@.map_values(|l: crate::parser::Layer| l@);
    let mut res: Vec<Vec<char>> = Vec::new();
    let mut i: usize = 0;
    while i < ls.len()
        invariant
            i <= ls.len(),
            lv == ls@.map_values(|l: crate::parser::Layer| l@),
            seqs_of(res@) == layer_names(lv).take(i as int),
        decreases ls.len() - i,
    {
        let ghost before = res@;
        res.push(chars_of(ls[i].name.as_str()));
        assert(seqs_of(res@) =~= seqs_of(before).push(ls@[i as int].name@));
        assert(layer_names(lv).take(i + 1) =~= layer_names(lv).take(i as int).push(lv[i as int].name));
        i += 1;
    }
    assert(layer_names(lv).take(ls.len() as int) =~= layer_names(lv));
    res
}

fn contains_chars(list: &Vec<Vec<char>>, x: &Vec<char>) -> (res: bool)
    ensures
        res == seqs_of(list@).contains(x@),
{
    let mut i: usize = 0;
    while i < list.len()
        invariant
            i <= list.len(),
            forall|j: int| 0 <= j < i ==> seqs_of(list@)[j] != x@,
        decreases list.len() - i,
    {
        if eq_chars(&list[i], x) {
            assert(seqs_of(list@)[i as int] == x@);
            return true;
        }
        i += 1;
    }
    false
}

/// `'s'` appended to `m`.
fn push_quoted(m: &mut Vec<char>, s: &Vec<char>)
    ensures
        final(m)@ == old(m)@ + quoted(s@),
{
    append_str(m, "'");
    append(m, s);
    append_str(m, "'");
    assert(m@ =~= old(m)@ + quoted(s@));
}

/// Rule 3.
fn check_transforms(spec: &EnthSpec, ents: &Vec<Vec<char>>, errs: &mut Vec<ValidationError>)
    requires
        seqs_of(ents@) == spec@.entities,
    ensures
        errors_view(final(errs)@) == errors_view(old(errs)@) + transform_errors(
            spec@.entities,
            spec@.transforms,
        ),
{
    let ghost items = transform_items(spec@.entities, spec@.transforms);
    let mut i: usize = 0;
    assert(items.take(0).flatten_alt() =~= Seq::<ValidationErrorView>::empty());
    assert(errors_view(errs@) =~= errors_view(old(errs)@) + items.take(0).flatten_alt());
    while i < spec.transforms.len()
        invariant
            i <= spec.transforms.len(),
            items == transform_items(spec@.entities, spec@.transforms),
            seqs_of(ents@) == spec@.entities,
            errors_view(errs@) == errors_view(old(errs)@) + items.take(i as int).flatten_alt(),
        decreases spec.transforms.len() - i,
    {
        let ghost mid = errors_view(errs@);
        let src = chars_of(spec.transforms[i].source.as_str());
        let tgt = chars_of(spec.transforms[i].target.as_str());
        let mut m1: Vec<char> = Vec::new();
        append_str(&mut m1, "TRANSFORM references undeclared entity ");
        push_quoted(&mut m1, &src);
        let c1 = !contains_chars(ents, &src);
        push_error_if(errs, c1, 3, &m1);
        let mut m2: Vec<char> = Vec::new();
        append_str(&mut m2, "TRANSFORM references undeclared entity ");
        push_quoted(&mut m2, &tgt);
        let c2 = !contains_chars(ents, &tgt);
        push_error_if(errs, c2, 3, &m2);
        proof {
            lemma_flatten_step(items, i as int);
            assert(m1@ =~= "TRANSFORM references undeclared entity "@ + quoted(src@));
            assert(m2@ =~= "TRANSFORM references undeclared entity "@ + quoted(tgt@));
            assert(errors_view(errs@) =~= errors_view(old(errs)@) + items.take(i + 1).flatten_alt());
        }
        i += 1;
    }
    proof {
        lemma_flatten_all(items);
    }
}

/// Rule 4.
fn check_contracts(spec: &EnthSpec, ents: &Vec<Vec<char>>, errs: &mut Vec<ValidationError>)
    requires
        seqs_of(ents@) == spec@.entities,
    ensures
        errors_view(final(errs)@) == errors_view(old(errs)@) + contract_errors(
            spec@.entities,
            spec@.contracts,
        ),
{
    let ghost items = contract_items(spec@.entities, spec@.contracts);
    let mut i: usize = 0;
    assert(errors_view(errs@) =~= errors_view(old(errs)@) + items.take(0).flatten_alt());
    while i < spec.contracts.len()
        invariant
            i <= spec.contracts.len(),
            items == contract_items(spec@.entities, spec@.contracts),
            seqs_of(ents@) == spec@.entities,
            errors_view(errs@) == errors_view(old(errs)@) + items.take(i as int).flatten_alt(),
        decreases spec.contracts.len() - i,
    {
        let subj = chars_of(spec.contracts[i].subject.as_str());
        let k = find_char(&subj, '.');
        proof {
            lemma_lead(subj@, other_than('.'));
        }
        let base = slice_of(&subj, 0, k);
        assert(base@ =~= subject_base(subj@));
        let mut star: Vec<char> = Vec::new();
        append_str(&mut star, "*");
        assert(star@ =~= "*"@);
        let cond = !eq_chars(&base, &star) && !contains_chars(ents, &base);
        let mut m: Vec<char> = Vec::new();
        append_str(&mut m, "CONTRACTS subject ");
        push_quoted(&mut m, &subj);
        append_str(&mut m, " references undeclared entity ");
        push_quoted(&mut m, &base);
        push_error_if(errs, cond, 4, &m);
        proof {
            lemma_flatten_step(items, i as int);
            assert(m@ =~= "CONTRACTS subject "@ + quoted(subj@) + " references undeclared entity "@
                + quoted(base@));
            assert(errors_view(errs@) =~= errors_view(old(errs)@) + items.take(i + 1).flatten_alt());
        }
        i += 1;
    }
    proof {
        lemma_flatten_all(items);
    }
}

/// Rule 5, for one flow.
fn check_flow_steps(
    flow: &crate::parser::Flow,
    ents: &Vec<Vec<char>>,
    ghost_ents: Ghost<Seq<Seq<char>>>,
    errs: &mut Vec<ValidationError>,
)
    requires
        seqs_of(ents@) == ghost_ents@,
    ensures
        errors_view(final(errs)@) == errors_view(old(errs)@) + flow_step_items(ghost_ents@, flow@).flatten_alt(),
{
    let ghost items = flow_step_items(ghost_ents@, flow@);
    let name = chars_of(flow.name.as_str());
    let mut j: usize = 0;
    assert(errors_view(errs@) =~= errors_view(old(errs)@) + items.take(0).flatten_alt());
    while j < flow.steps.len()
        invariant
            j <= flow.steps.len(),
            items == flow_step_items(ghost_ents@, flow@),
            name@ == flow.name@,
            seqs_of(ents@) == ghost_ents@,
            errors_view(errs@) == errors_view(old(errs)@) + items.take(j as int).flatten_alt(),
        decreases flow.steps.len() - j,
    {
        let subj = chars_of(flow.steps[j].subject.as_str());
        let cond = subj.len() > 0 && !contains_chars(ents, &subj);
        let mut m: Vec<char> = Vec::new();
        append_str(&mut m, "FLOW ");
        push_quoted(&mut m, &name);
        append_str(&mut m, " step ");
        push_decimal(&mut m, flow.steps[j].number);
        append_str(&mut m, " references undeclared entity ");
        push_quoted(&mut m, &subj);
        push_error_if(errs, cond, 5, &m);
        proof {
            lemma_flatten_step(items, j as int);
            assert(m@ =~= "FLOW "@ + quoted(name@) + " step "@ + decimal(flow.steps@[j as int].number as nat)
                + " references undeclared entity "@ + quoted(subj@));
            assert(errors_view(errs@) =~= errors_view(old(errs)@) + items.take(j + 1).flatten_alt());
        }
        j += 1;
    }
    proof {
        lemma_flatten_all(items);
    }
}

/// Rule 5.
fn check_step_entities(spec: &EnthSpec, ents: &Vec<Vec<char>>, errs: &mut Vec<ValidationError>)
    requires
        seqs_of(ents@) == spec@.entities,
    ensures
        errors_view(final(errs)@) == errors_view(old(errs)@) + step_entity_errors(
            spec@.entities,
            spec@.flows,
        ),
{
    let ghost items = step_entity_items(spec@.entities, spec@.flows);
    let mut i: usize = 0;
    assert(errors_view(errs@) =~= errors_view(old(errs)@) + items.take(0).flatten_alt());
    while i < spec.flows.len()
        invariant
            i <= spec.flows.len(),
            items == step_entity_items(spec@.entities, spec@.flows),
            seqs_of(ents@) == spec@.entities,
            errors_view(errs@) == errors_view(old(errs)@) + items.take(i as int).flatten_alt(),
        decreases spec.flows.len() - i,
    {
        let ghost mid = errors_view(errs@);
        check_flow_steps(&spec.flows[i], ents, Ghost(spec@.entities), errs);
        proof {
            lemma_flatten_step(items, i as int);
            assert(errors_view(errs@) =~= errors_view(old(errs)@) + items.take(i + 1).flatten_alt());
        }
        i += 1;
    }
    proof {
        lemma_flatten_all(items);
    }
}

/// Appends `[n1, n2, ...]`.
fn push_debug_list(m: &mut Vec<char>, flow: &crate::parser::Flow)
    ensures
        final(m)@ == old(m)@ + debug_list(step_numbers(flow@)),
{
    let ghost ds = step_numbers(flow@).map_values(|n: usize| decimal(n as nat));
    append_str(m, "[");
    let ghost base = m@;
    let mut j: usize = 0;
    while j < flow.steps.len()
        invariant
            j <= flow.steps.len(),
            ds == step_numbers(flow@).map_values(|n: usize| decimal(n as nat)),
            m@ == base + join(ds.take(j as int), ", "@),
        decreases flow.steps.len() - j,
    {
        let ghost before = m@;
        if j > 0 {
            append_str(m, ", ");
        }
        push_decimal(m, flow.steps[j].number);
        proof {
            assert(ds.take(j + 1).drop_last() =~= ds.take(j as int));
            assert(ds[j as int] == decimal(flow.steps@[j as int].number as nat));
            if j == 0 {
                assert(join(ds.take(0), ", "@) =~= Seq::<char>::empty());
                assert(m@ =~= base + ds.take(1)[0]);
            } else {
                assert(m@ =~= base + (join(ds.take(j as int), ", "@) + ", "@ + ds[j as int]));
            }
        }
        j += 1;
    }
    assert(ds.take(flow.steps.len() as int) =~= ds);
    append_str(m, "]");
    assert(m@ =~= old(m)@ + debug_list(step_numbers(flow@)));
}

/// Rules 6 and 7 for one flow: appends the rule 6 or rule 7 error, as `rule` says.
fn check_flow_shape(flow: &crate::parser::Flow, rule: usize, errs: &mut Vec<ValidationError>)
    requires
        rule == 6 || rule == 7,
    ensures
        errors_view(final(errs)@) == errors_view(old(errs)@) + (if rule == 6 {
            sequence_error(flow@)
        } else {
            length_error(flow@)
        }),
{
    let name = chars_of(flow.name.as_str());
    let mut m: Vec<char> = Vec::new();
    append_str(&mut m, "FLOW ");
    push_quoted(&mut m, &name);
    if rule == 6 {
        let mut seq_ok = true;
        let mut j: usize = 0;
        while j < flow.steps.len()
            invariant
                j <= flow.steps.len(),
                seq_ok == (forall|q: int| 0 <= q < j ==> #[trigger] step_numbers(flow@)[q] == q + 1),
            decreases flow.steps.len() - j,
        {
            assert(step_numbers(flow@)[j as int] == flow.steps@[j as int].number);
            let ghost prev = seq_ok;
            if flow.steps[j].number != j + 1 {
                seq_ok = false;
            }
            proof {
                if seq_ok {
                    assert forall|q: int| 0 <= q < j + 1 implies #[trigger] step_numbers(flow@)[q] == q + 1 by {
                        if q < j {
                            assert(prev);
                        }
                    }
                }
            }
            j += 1;
        }
        append_str(&mut m, " steps are not sequential from 1: ");
        push_debug_list(&mut m, flow);
        push_error_if(errs, !seq_ok, 6, &m);
        assert(m@ =~= "FLOW "@ + quoted(flow@.name) + " steps are not sequential from 1: "@ + debug_list(
            step_numbers(flow@),
        ));
    } else {
        append_str(&mut m, " must have at least 2 steps (has ");
        push_decimal(&mut m, flow.steps.len());
        append_str(&mut m, ")");
        push_error_if(errs, flow.steps.len() < 2, 7, &m);
        assert(m@ =~= "FLOW "@ + quoted(flow@.name) + " must have at least 2 steps (has "@ + decimal(
            flow@.steps.len(),
        ) + ")"@);
    }
}

/// Rules 6 and 7.
fn check_flows_shape(spec: &EnthSpec, rule: usize, errs: &mut Vec<ValidationError>)
    requires
        rule == 6 || rule == 7,
    ensures
        errors_view(final(errs)@) == errors_view(old(errs)@) + (if rule == 6 {
            sequence_errors(spec@.flows)
        } else {
            length_errors(spec@.flows)
        }),
{
    let ghost items = if rule == 6 {
        sequence_items(spec@.flows)
    } else {
        length_items(spec@.flows)
    };
    let mut i: usize = 0;
    assert(errors_view(errs@) =~= errors_view(old(errs)@) + items.take(0).flatten_alt());
    while i < spec.flows.len()
        invariant
            i <= spec.flows.len(),
            rule == 6 || rule == 7,
            items == (if rule == 6 {
                sequence_items(spec@.flows)
            } else {
                length_items(spec@.flows)
            }),
            errors_view(errs@) == errors_view(old(errs)@) + items.take(i as int).flatten_alt(),
        decreases spec.flows.len() - i,
    {
        check_flow_shape(&spec.flows[i], rule, errs);
        proof {
            lemma_flatten_step(items, i as int);
            assert(errors_view(errs@) =~= errors_view(old(errs)@) + items.take(i + 1).flatten_alt());
        }
        i += 1;
    }
    proof {
        lemma_flatten_all(items);
    }
}

pub enum NameCase {
    Upper,
    Pascal,
    Snake,
}

pub open spec fn case_fn(k: NameCase) -> spec_fn(Seq<char>) -> bool {
    match k {
        NameCase::Upper => upper_case_fn(),
        NameCase::Pascal => pascal_case_fn(),
        NameCase::Snake => snake_case_fn(),
    }
}

fn has_case(k: &NameCase, s: &Vec<char>) -> (res: bool)
    ensures
        res == case_fn(*k)(s@),
{
    match k {
        NameCase::Upper => is_upper_case(s),
        NameCase::Pascal => is_pascal_case(s),
        NameCase::Snake => is_snake_case(s),
    }
}

/// Rules 8, 9, 10 and 13: every name follows the naming convention `k`.
fn check_names(
    names: &Vec<Vec<char>>,
    rule: usize,
    k: &NameCase,
    what: &str,
    errs: &mut Vec<ValidationError>,
)
    ensures
        errors_view(final(errs)@) == errors_view(old(errs)@) + name_items(
            seqs_of(names@),
            rule,
            case_fn(*k),
            what@,
        ).flatten_alt(),
{
    let ghost items = name_items(seqs_of(names@), rule, case_fn(*k), what@);
    let mut i: usize = 0;
    assert(errors_view(errs@) =~= errors_view(old(errs)@) + items.take(0).flatten_alt());
    while i < names.len()
        invariant
            i <= names.len(),
            items == name_items(seqs_of(names@), rule, case_fn(*k), what@),
            errors_view(errs@) == errors_view(old(errs)@) + items.take(i as int).flatten_alt(),
        decreases names.len() - i,
    {
        let mut m: Vec<char> = Vec::new();
        append_str(&mut m, what);
        push_quoted(&mut m, &names[i]);
        let ok = has_case(k, &names[i]);
        push_error_if(errs, !ok, rule, &m);
        proof {
            lemma_flatten_step(items, i as int);
            assert(m@ =~= what@ + quoted(names@[i as int]@));
            assert(errors_view(errs@) =~= errors_view(old(errs)@) + items.take(i + 1).flatten_alt());
        }
        i += 1;
    }
    proof {
        lemma_flatten_all(items);
    }
}

/// Rule 11.
fn check_vault_blocks(spec: &EnthSpec, source_text: Option<&str>, errs: &mut Vec<ValidationError>)
    ensures
        errors_view(final(errs)@) == errors_view(old(errs)@) + rule_vault(
            spec@,
            match source_text {
                Some(t) => Some(t@),
                None => None,
            },
        ),
{
    let src = chars_of(spec.source_file.as_str());
    let raw = match source_text {
        Some(t) => t,
        None => {
            assert(errors_view(errs@) =~= errors_view(old(errs)@) + Seq::<ValidationErrorView>::empty());
            return ;
        },
    };
    let is_main = crate::text::ends_with_str(&src, "enthropic.enth");
    if !is_main {
        assert(errors_view(errs@) =~= errors_view(old(errs)@) + Seq::<ValidationErrorView>::empty());
        return ;
    }
    let rv = chars_of(raw);
    let ls = lines_chars(&rv);
    let ghost items = vault_block_items(seqs_of(ls@));
    let mut i: usize = 0;
    assert(errors_view(errs@) =~= errors_view(old(errs)@) + items.take(0).flatten_alt());
    while i < ls.len()
        invariant
            i <= ls.len(),
            items == vault_block_items(seqs_of(ls@)),
            errors_view(errs@) == errors_view(old(errs)@) + items.take(i as int).flatten_alt(),
        decreases ls.len() - i,
    {
        let t = trim_chars(&ls[i]);
        let hit = starts_with_str(&t, "VAULT ");
        let mut m: Vec<char> = Vec::new();
        append_str(&mut m, "VAULT block in enthropic.enth at line ");
        push_decimal(&mut m, i + 1);
        append_str(&mut m, " — secrets must live in vault_*.enth");
        push_error_if(errs, hit, 11, &m);
        proof {
            lemma_flatten_step(items, i as int);
            assert(m@ =~= "VAULT block in enthropic.enth at line "@ + decimal(i as nat + 1)
                + " — secrets must live in vault_*.enth"@);
            assert(errors_view(errs@) =~= errors_view(old(errs)@) + items.take(i + 1).flatten_alt());
        }
        i += 1;
    }
    proof {
        lemma_flatten_all(items);
    }
}

/// Rule 12, for one layer.
fn check_layer_calls(
    layer: &crate::parser::Layer,
    declared: &Vec<Vec<char>>,
    errs: &mut Vec<ValidationError>,
)
    ensures
        errors_view(final(errs)@) == errors_view(old(errs)@) + call_items(seqs_of(declared@), layer@).flatten_alt(),
{
    let ghost items = call_items(seqs_of(declared@), layer@);
    let name = chars_of(layer.name.as_str());
    let calls = chars_list(&layer.calls);
    let mut j: usize = 0;
    assert(errors_view(errs@) =~= errors_view(old(errs)@) + items.take(0).flatten_alt());
    while j < calls.len()
        invariant
            j <= calls.len(),
            items == call_items(seqs_of(declared@), layer@),
            seqs_of(calls@) == layer@.calls,
            name@ == layer@.name,
            errors_view(errs@) == errors_view(old(errs)@) + items.take(j as int).flatten_alt(),
        decreases calls.len() - j,
    {
        let cond = !contains_chars(declared, &calls[j]);
        let mut m: Vec<char> = Vec::new();
        append_str(&mut m, "LAYERS ");
        push_quoted(&mut m, &name);
        append_str(&mut m, " CALLS undeclared layer ");
        push_quoted(&mut m, &calls[j]);
        push_error_if(errs, cond, 12, &m);
        proof {
            lemma_flatten_step(items, j as int);
            assert(seqs_of(calls@)[j as int] == calls@[j as int]@);
            assert(m@ =~= "LAYERS "@ + quoted(name@) + " CALLS undeclared layer "@ + quoted(calls@[j as int]@));
            assert(errors_view(errs@) =~= errors_view(old(errs)@) + items.take(j + 1).flatten_alt());
        }
        j += 1;
    }
    proof {
        lemma_flatten_all(items);
    }
}

/// Rule 12.
fn check_calls(spec: &EnthSpec, declared: &Vec<Vec<char>>, errs: &mut Vec<ValidationError>)
    requires
        seqs_of(declared@) == layer_names(spec@.layers),
    ensures
        errors_view(final(errs)@) == errors_view(old(errs)@) + layer_calls_errors(spec@.layers),
{
    let ghost items = layer_calls_items(spec@.layers);
    let mut i: usize = 0;
    assert(errors_view(errs@) =~= errors_view(old(errs)@) + items.take(0).flatten_alt());
    while i < spec.layers.len()
        invariant
            i <= spec.layers.len(),
            items == layer_calls_items(spec@.layers),
            seqs_of(declared@) == layer_names(spec@.layers),
            errors_view(errs@) == errors_view(old(errs)@) + items.take(i as int).flatten_alt(),
        decreases spec.layers.len() - i,
    {
        check_layer_calls(&spec.layers[i], declared, errs);
        proof {
            lemma_flatten_step(items, i as int);
            assert(errors_view(errs@) =~= errors_view(old(errs)@) + items.take(i + 1).flatten_alt());
        }
        i += 1;
    }
    proof {
        lemma_flatten_all(items);
    }
}

/// Checks a spec against the rules. `source_text` is the text of the spec file
/// when it could be read; only rule 11 looks at it.
pub fn validate(spec: &EnthSpec, source_text: Option<&str>) -> (res: Vec<ValidationError>)
    ensures
        errors_view(res@) == validation_errors(
            spec@,
            match source_text {
                Some(t) => Some(t@),
                None => None,
            },
        ),
{
    let mut errs: Vec<ValidationError> = Vec::new();
    let ents = chars_list(&spec.entities);
    assert(errors_view(errs@) =~= Seq::<ValidationErrorView>::empty());
    let mut m1: Vec<char> = Vec::new();
    append_str(&mut m1, "VERSION is missing");
    push_error_if(&mut errs, spec.version.as_str().is_empty(), 1, &m1);
    let mut m2: Vec<char> = Vec::new();
    append_str(&mut m2, "ENTITY must declare at least one entity");
    push_error_if(&mut errs, spec.entities.len() == 0, 2, &m2);
    check_transforms(spec, &ents, &mut errs);
    check_contracts(spec, &ents, &mut errs);
    check_step_entities(spec, &ents, &mut errs);
    check_flows_shape(spec, 6, &mut errs);
    check_flows_shape(spec, 7, &mut errs);
    let lnames = layer_name_list(&spec.layers);
    check_names(&lnames, 8, &NameCase::Upper, "LAYERS name must be UPPER_CASE: ", &mut errs);
    let vocab = chars_list(&spec.vocabulary);
    check_names(&vocab, 9, &NameCase::Pascal, "VOCABULARY entry must be PascalCase: ", &mut errs);
    check_names(&ents, 10, &NameCase::Snake, "ENTITY identifier must be snake_case: ", &mut errs);
    check_vault_blocks(spec, source_text, &mut errs);
    check_calls(spec, &lnames, &mut errs);
    let secrets = chars_list(&spec.secrets);
    check_names(&secrets, 13, &NameCase::Upper, "SECRETS entry must be UPPER_CASE: ", &mut errs);
    assert(errors_view(errs@) =~= validation_errors(
        spec@,
        match source_text {
            Some(t) => Some(t@),
            None => None,
        },
    ));
    errs
}

/// A name that holds an ASCII capital letter anywhere is not `snake_case`.
pub proof fn law_capital_is_not_snake_case(n: Seq<char>, j: int)
    requires
        0 <= j < n.len(),
        is_ascii_upper(n[j]),
    ensures
        !snake_case(n),
{
    if j > 0 {
        assert(!(is_ascii_lower(n[j]) || is_ascii_digit(n[j]) || n[j] == '_'));
    }
}

proof fn lemma_flatten_has<A>(items: Seq<Seq<A>>, i: int, j: int)
    requires
        0 <= i < items.len(),
        0 <= j < items[i].len(),
    ensures
        items.flatten_alt().contains(items[i][j]),
    decreases items.len(),
{
    let init = items.drop_last();
    if i == items.len() - 1 {
        let k = init.flatten_alt().len() + j;
        assert(items.flatten_alt() == init.flatten_alt() + items.last());
        assert(items.flatten_alt()[k] == items[i][j]);
    } else {
        assert(init[i] == items[i]);
        lemma_flatten_has(init, i, j);
        let k = choose|k: int| 0 <= k < init.flatten_alt().len() && init.flatten_alt()[k] == items[i][j];
        assert(items.flatten_alt() == init.flatten_alt() + items.last());
        assert(items.flatten_alt()[k] == items[i][j]);
    }
}

/// Every entity identifier that holds an ASCII capital letter gets a rule 10
/// error that names it, whatever else the spec holds.
pub proof fn law_capital_entity_reported(s: EnthSpecView, source_text: Option<Seq<char>>, i: int, j: int)
    requires
        0 <= i < s.entities.len(),
        0 <= j < s.entities[i].len(),
        is_ascii_upper(s.entities[i][j]),
    ensures
        validation_errors(s, source_text).contains(
            ValidationErrorView {
                rule: 10,
                message: "ENTITY identifier must be snake_case: '"@ + s.entities[i] + "'"@,
                severity: "ERROR"@,
            },
        ),
{
    let e = s.entities[i];
    law_capital_is_not_snake_case(e, j);
    let what = "ENTITY identifier must be snake_case: "@;
    let items = name_items(s.entities, 10, snake_case_fn(), what);
    let x = err(10, what + quoted(e));
    assert(items[i] == seq![x]);
    lemma_flatten_has(items, i, 0);
    reveal_strlit("ENTITY identifier must be snake_case: '");
    reveal_strlit("ENTITY identifier must be snake_case: ");
    reveal_strlit("'");
    assert(x == ValidationErrorView {
        rule: 10,
        message: "ENTITY identifier must be snake_case: '"@ + e + "'"@,
        severity: "ERROR"@,
    }) by {
        assert(what + quoted(e) =~= "ENTITY identifier must be snake_case: '"@ + e + "'"@);
    }
    let before = rule_version(s) + rule_entity_declared(s) + transform_errors(s.entities, s.transforms)
        + contract_errors(s.entities, s.contracts) + step_entity_errors(s.entities, s.flows)
        + sequence_errors(s.flows) + length_errors(s.flows) + layer_name_errors(s.layers)
        + vocabulary_errors(s.vocabulary);
    let mid = entity_name_errors(s.entities);
    let after = rule_vault(s, source_text) + layer_calls_errors(s.layers) + secret_name_errors(s.secrets);
    let k = choose|k: int| 0 <= k < mid.len() && mid[k] == x;
    let all = validation_errors(s, source_text);
    assert(all =~= before + mid + after);
    assert(all[before.len() + k] == x);
}

/// A name that holds an ASCII lowercase letter anywhere is not `UPPER_CASE`.
pub proof fn law_lowercase_is_not_upper_case(n: Seq<char>, j: int)
    requires
        0 <= j < n.len(),
        is_ascii_lower(n[j]),
    ensures
        !upper_case(n),
{
    if j > 0 {
        assert(!(is_ascii_upper(n[j]) || is_ascii_digit(n[j]) || n[j] == '_'));
    }
}

/// A `PascalCase` name starts with an ASCII capital and holds only ASCII
/// letters and digits: no underscore, no other character.
pub proof fn law_pascal_case_letters(n: Seq<char>)
    requires
        pascal_case(n),
    ensures
        n.len() > 0,
        is_ascii_upper(n[0]),
        forall|j: int| 0 <= j < n.len() ==> n[j] != '_' && (is_ascii_upper(#[trigger] n[j]) || is_ascii_lower(n[j]) || is_ascii_digit(n[j])),
{
}

} // verus!
