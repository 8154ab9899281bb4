//! The build-state file `state_<project>.enth`: what has been built of a spec.
use vstd::prelude::*;
use crate::parser::{
    assoc_get, find_deps_key, find_project_key, EnthSpec, EnthSpecView, ProjectValue,
    ProjectValueView,
};
use crate::text::{
    append, append_str, chars_list, chars_of, join, join_chars, lead, lead_len, lines, lines_chars, pad_right,
    push_padded, seqs_of, string_of, strs_of, trim, trim_chars, words, words_chars, ws, eq_chars,
    eq_str, uppercase, uppercase_chars, CharClass, lemma_lead, slice_of, no_ws, is_ws, spaces,
    lemma_lead_unique, lemma_trail_unique, lemma_words_first, lemma_words_single, lemma_join_has_line,
    plain_line, lemma_lines_of_joined, lemma_lines_no_newline, lemma_words_items,
};

verus! {

// ---------------------------------------------------------------------------
// Generating a state file
// ---------------------------------------------------------------------------

pub open spec fn check_line(name: Seq<char>, source: Seq<char>) -> Seq<char> {
    "    "@ + pad_right(name, 28) + " UNVERIFIED   # "@ + source
}

pub open spec fn check_lines_for(names: Seq<Seq<char>>, source: Seq<char>) -> Seq<Seq<char>> {
    names.map_values(|n: Seq<char>| check_line(n, source))
}

pub open spec fn pending_line(name: Seq<char>) -> Seq<char> {
    "    "@ + pad_right(name, 28) + " PENDING"@
}

pub open spec fn pending_lines(names: Seq<Seq<char>>) -> Seq<Seq<char>> {
    names.map_values(|n: Seq<char>| pending_line(n))
}

/// A titled block of lines followed by an empty line, present only when `cond` holds.
pub open spec fn block(cond: bool, header: Seq<char>, body: Seq<Seq<char>>) -> Seq<Seq<char>> {
    if cond {
        seq![header] + body + seq![Seq::<char>::empty()]
    } else {
        Seq::empty()
    }
}

/// The language named by `LANG`, when it is a plain string.
pub open spec fn lang_of(s: EnthSpecView) -> Seq<Seq<char>> {
    match assoc_get(s.project, "LANG"@) {
        Some(ProjectValueView::Str(l)) => seq![l],
        _ => Seq::empty(),
    }
}

/// The dependencies that `DEPS` lists under `k`.
pub open spec fn deps_of(s: EnthSpecView, k: Seq<char>) -> Seq<Seq<char>> {
    match assoc_get(s.project, "DEPS"@) {
        Some(ProjectValueView::Deps(d)) => match assoc_get(d, k) {
            Some(l) => l,
            None => Seq::empty(),
        },
        _ => Seq::empty(),
    }
}

/// The `CHECKS` of a state file: the language, then the system and runtime dependencies.
pub open spec fn check_lines(s: EnthSpecView) -> Seq<Seq<char>> {
    check_lines_for(lang_of(s), "LANG"@) + check_lines_for(deps_of(s, "SYSTEM"@), "DEPS.SYSTEM"@)
        + check_lines_for(deps_of(s, "RUNTIME"@), "DEPS.RUNTIME"@)
}

pub open spec fn state_lines(s: EnthSpecView, name: Seq<char>) -> Seq<Seq<char>> {
    seq!["STATE "@ + name, Seq::<char>::empty()] + block(
        check_lines(s).len() > 0,
        "  CHECKS"@,
        check_lines(s),
    ) + block(s.entities.len() > 0, "  ENTITY"@, pending_lines(s.entities)) + block(
        s.flows.len() > 0,
        "  FLOWS"@,
        pending_lines(s.flows_order),
    ) + block(s.layers.len() > 0, "  LAYERS"@, pending_lines(s.layers_order))
}

/// The initial state file of a spec: every entity, flow and layer `PENDING`.
pub open spec fn state_text(s: EnthSpecView, name: Seq<char>) -> Seq<char> {
    join(state_lines(s, name), "\n"@)
}

fn push_line(out: &mut Vec<Vec<char>>, l: Vec<char>)
    ensures
        seqs_of(final(out)@) == seqs_of(old(out)@).push(l@),
{
    let ghost lv = l@;
    out.push(l);
    assert(seqs_of(out@) =~= seqs_of(old(out)@).push(lv));
}

fn literal_line(s: &str) -> (res: Vec<char>)
    ensures
        res@ == s@,
{
    chars_of(s)
}

/// The lines of one block of `PENDING` entries.
fn pending_block(out: &mut Vec<Vec<char>>, cond: bool, header: &str, names: &Vec<String>)
    ensures
        seqs_of(final(out)@) == seqs_of(old(out)@) + block(cond, header@, pending_lines(strs_of(names@))),
{
    if !cond {
        assert(seqs_of(out@) =~= seqs_of(old(out)@) + block(cond, header@, pending_lines(strs_of(names@))));
        return ;
    }
    push_line(out, literal_line(header));
    let ghost base = seqs_of(out@);
    let ghost body = pending_lines(strs_of(names@));
    let mut i: usize = 0;
    assert(seqs_of(out@) =~= base + body.take(0));
    while i < names.len()
        invariant
            i <= names.len(),
            body == pending_lines(strs_of(names@)),
            seqs_of(out@) == base + body.take(i as int),
        decreases names.len() - i,
    {
        let n = chars_of(names[i].as_str());
        let mut l: Vec<char> = Vec::new();
        append_str(&mut l, "    ");
        push_padded(&mut l, &n, 28);
        append_str(&mut l, " PENDING");
        assert(l@ =~= pending_line(names@[i as int]@));
        push_line(out, l);
        assert(body.take(i + 1) =~= body.take(i as int).push(body[i as int]));
        i += 1;
    }
    assert(body.take(names.len() as int) =~= body);
    push_line(out, Vec::new());
    assert(seqs_of(out@) =~= seqs_of(old(out)@) + block(cond, header@, body));
}

fn push_check_lines(out: &mut Vec<Vec<char>>, names: &Vec<String>, source: &str)
    ensures
        seqs_of(final(out)@) == seqs_of(old(out)@) + check_lines_for(strs_of(names@), source@),
{
    let ghost base = seqs_of(out@);
    let ghost body = check_lines_for(strs_of(names@), source@);
    let mut i: usize = 0;
    assert(seqs_of(out@) =~= base + body.take(0));
    while i < names.len()
        invariant
            i <= names.len(),
            base == seqs_of(old(out)@),
            body == check_lines_for(strs_of(names@), source@),
            seqs_of(out@) == base + body.take(i as int),
        decreases names.len() - i,
    {
        let n = chars_of(names[i].as_str());
        let mut l: Vec<char> = Vec::new();
        append_str(&mut l, "    ");
        push_padded(&mut l, &n, 28);
        append_str(&mut l, " UNVERIFIED   # ");
        append_str(&mut l, source);
        assert(l@ =~= check_line(names@[i as int]@, source@));
        push_line(out, l);
        assert(body.take(i + 1) =~= body.take(i as int).push(body[i as int]));
        i += 1;
    }
    assert(body.take(names.len() as int) =~= body);
}

/// The dependency list of `DEPS` under `k`, as `check_lines` reads it.
fn push_dep_checks(spec: &EnthSpec, out: &mut Vec<Vec<char>>, k: &str, source: &str)
    ensures
        seqs_of(final(out)@) == seqs_of(old(out)@) + check_lines_for(deps_of(spec@, k@), source@),
{
    let dkey = string_of(&chars_of("DEPS"));
    match find_project_key(&spec.project, &dkey) {
        Some(i) => {
            match &spec.project[i].1 {
                ProjectValue::Deps(d) => {
                    let kk = string_of(&chars_of(k));
                    match find_deps_key(d, &kk) {
                        Some(j) => {
                            push_check_lines(out, &d[j].1, source);
                        },
                        None => {
                            assert(seqs_of(out@) =~= seqs_of(old(out)@) + check_lines_for(
                                deps_of(spec@, k@),
                                source@,
                            ));
                        },
                    }
                },
                _ => {
                    assert(seqs_of(out@) =~= seqs_of(old(out)@) + check_lines_for(
                        deps_of(spec@, k@),
                        source@,
                    ));
                },
            }
        },
        None => {
            assert(seqs_of(out@) =~= seqs_of(old(out)@) + check_lines_for(deps_of(spec@, k@), source@));
        },
    }
}

/// The initial state file of `spec` for the project `project_name`.
pub fn generate(spec: &EnthSpec, project_name: &str) -> (res: String)
    ensures
        res@ == state_text(spec@, project_name@),
{
    let mut out: Vec<Vec<char>> = Vec::new();
    let mut first: Vec<char> = Vec::new();
    append_str(&mut first, "STATE ");
    append_str(&mut first, project_name);
    push_line(&mut out, first);
    push_line(&mut out, Vec::new());
    let ghost head = seqs_of(out@);
    assert(head =~= seq!["STATE "@ + project_name@, Seq::<char>::empty()]);
    // CHECKS
    let mut checks: Vec<Vec<char>> = Vec::new();
    let lkey = string_of(&chars_of("LANG"));
    match find_project_key(&spec.project, &lkey) {
        Some(i) => {
            match &spec.project[i].1 {
                ProjectValue::Str(l) => {
                    let n = chars_of(l.as_str());
                    let mut line: Vec<char> = Vec::new();
                    append_str(&mut line, "    ");
                    push_padded(&mut line, &n, 28);
                    append_str(&mut line, " UNVERIFIED   # ");
                    append_str(&mut line, "LANG");
                    push_line(&mut checks, line);
                },
                _ => {},
            }
        },
        None => {},
    }
    assert(seqs_of(checks@) =~= check_lines_for(lang_of(spec@), "LANG"@));
    push_dep_checks(spec, &mut checks, "SYSTEM", "DEPS.SYSTEM");
    push_dep_checks(spec, &mut checks, "RUNTIME", "DEPS.RUNTIME");
    assert(seqs_of(checks@) =~= check_lines(spec@));
    if checks.len() > 0 {
        push_line(&mut out, literal_line("  CHECKS"));
        let mut i: usize = 0;
        let ghost base = seqs_of(out@);
        assert(seqs_of(out@) =~= base + seqs_of(checks@).take(0));
        while i < checks.len()
            invariant
                i <= checks.len(),
                seqs_of(out@) == base + seqs_of(checks@).take(i as int),
            decreases checks.len() - i,
        {
            let l = slice_of(&checks[i], 0, checks[i].len());
            assert(l@ =~= checks@[i as int]@);
            push_line(&mut out, l);
            assert(seqs_of(checks@).take(i + 1) =~= seqs_of(checks@).take(i as int).push(checks@[i as int]@));
            i += 1;
        }
        assert(seqs_of(checks@).take(checks.len() as int) =~= seqs_of(checks@));
        push_line(&mut out, Vec::new());
    }
    assert(seqs_of(out@) =~= head + block(check_lines(spec@).len() > 0, "  CHECKS"@, check_lines(spec@)));
    pending_block(&mut out, spec.entities.len() > 0, "  ENTITY", &spec.entities);
    pending_block(&mut out, spec.flows.len() > 0, "  FLOWS", &spec.flows_order);
    pending_block(&mut out, spec.layers.len() > 0, "  LAYERS", &spec.layers_order);
    assert(seqs_of(out@) =~= state_lines(spec@, project_name@));
    let text = join_chars(&out, "\n");
    string_of(&text)
}

// ---------------------------------------------------------------------------
// Updating a status
// ---------------------------------------------------------------------------

/// The statuses a state file may hold.
pub open spec fn status_values() -> Seq<Seq<char>> {
    seq![
        "BUILT"@,
        "PARTIAL"@,
        "PENDING"@,
        "OK"@,
        "MISSING"@,
        "UNVERIFIED"@,
        "SET"@,
        "UNSET"@,
    ]
}

/// The statuses a state file may hold, in their documented order.
pub fn status_value_list() -> (res: Vec<String>)
    ensures
        strs_of(res@) == status_values(),
{
    let mut v: Vec<String> = Vec::new();
    v.push(string_of(&chars_of("BUILT")));
    v.push(string_of(&chars_of("PARTIAL")));
    v.push(string_of(&chars_of("PENDING")));
    v.push(string_of(&chars_of("OK")));
    v.push(string_of(&chars_of("MISSING")));
    v.push(string_of(&chars_of("UNVERIFIED")));
    v.push(string_of(&chars_of("SET")));
    v.push(string_of(&chars_of("UNSET")));
    assert(strs_of(v@) =~= status_values());
    v
}

fn is_status_value(s: &Vec<char>) -> (res: bool)
    ensures
        res == status_values().contains(s@),
{
    let r = eq_str(s, "BUILT") || eq_str(s, "PARTIAL") || eq_str(s, "PENDING") || eq_str(s, "OK")
        || eq_str(s, "MISSING") || eq_str(s, "UNVERIFIED") || eq_str(s, "SET") || eq_str(s, "UNSET");
    proof {
        let sv = status_values();
        if r {
            if s@ == "BUILT"@ { assert(sv[0] == s@); }
            if s@ == "PARTIAL"@ { assert(sv[1] == s@); }
            if s@ == "PENDING"@ { assert(sv[2] == s@); }
            if s@ == "OK"@ { assert(sv[3] == s@); }
            if s@ == "MISSING"@ { assert(sv[4] == s@); }
            if s@ == "UNVERIFIED"@ { assert(sv[5] == s@); }
            if s@ == "SET"@ { assert(sv[6] == s@); }
            if s@ == "UNSET"@ { assert(sv[7] == s@); }
        } else {
            assert forall|i: int| 0 <= i < sv.len() implies sv[i] != s@ by {
            }
        }
    }
    r
}

/// A line `KEY STATUS` of the state file, for the given key and a known status.
pub open spec fn status_line_matches(line: Seq<char>, key: Seq<char>) -> bool {
    let parts = words(trim(line));
    parts.len() == 2 && parts[0] == key && status_values().contains(parts[1])
}

/// The whitespace a line starts with.
pub open spec fn leading_ws(line: Seq<char>) -> Seq<char> {
    line.take(lead(line, ws()) as int)
}

pub open spec fn updated_line(line: Seq<char>, key: Seq<char>, status: Seq<char>) -> Seq<char> {
    if status_line_matches(line, key) {
        leading_ws(line) + pad_right(key, 28) + " "@ + status
    } else {
        line
    }
}

pub open spec fn updated_lines(content: Seq<char>, key: Seq<char>, status: Seq<char>) -> Seq<Seq<char>> {
    lines(content).map_values(|l: Seq<char>| updated_line(l, key, status))
}

pub open spec fn has_status_line(content: Seq<char>, key: Seq<char>) -> bool {
    exists|i: int| 0 <= i < lines(content).len() && status_line_matches(#[trigger] lines(content)[i], key)
}

/// Why a status could not be set.
#[derive(Debug)]
pub enum StateError {
    /// The status, uppercased, is none of the known statuses.
    InvalidStatus(String),
    /// No line of the state file holds the key with a status.
    KeyNotFound(String),
}

impl StateError {
    /// The text that reports the error.
    pub open spec fn text(&self) -> Seq<char> {
        match self {
            StateError::InvalidStatus(st) => "Invalid status '"@ + st@ + "'. Must be: "@ + join(
                status_values(),
                ", "@,
            ),
            StateError::KeyNotFound(k) => "Key '"@ + k@ + "' not found in state file"@,
        }
    }

    /// The text that reports the error.
    pub fn message(&self) -> (res: String)
        ensures
            res@ == self.text(),
    {
        let mut out: Vec<char> = Vec::new();
        match self {
            StateError::InvalidStatus(st) => {
                append_str(&mut out, "Invalid status '");
                append_str(&mut out, st.as_str());
                append_str(&mut out, "'. Must be: ");
                let vals = status_value_list();
                append(&mut out, &join_chars(&chars_list(&vals), ", "));
            },
            StateError::KeyNotFound(k) => {
                append_str(&mut out, "Key '");
                append_str(&mut out, k.as_str());
                append_str(&mut out, "' not found in state file");
            },
        }
        string_of(&out)
    }
}

/// The text of a state file after setting `key` to `status` (uppercased) on
/// every line that holds `key` and a status; the lines are joined with `"\n"`
/// and end with one.
pub open spec fn set_status_text(content: Seq<char>, key: Seq<char>, status: Seq<char>) -> Seq<char> {
    join(updated_lines(content, key, uppercase(status)), "\n"@) + "\n"@
}

fn updated_line_exec(line: &Vec<char>, key: &Vec<char>, status: &Vec<char>) -> (res: (Vec<char>, bool))
    ensures
        res.0@ == updated_line(line@, key@, status@),
        res.1 == status_line_matches(line@, key@),
{
    let t = trim_chars(line);
    let parts = words_chars(&t);
    let hit = parts.len() == 2 && eq_chars(&parts[0], key) && is_status_value(&parts[1]);
    assert(hit == status_line_matches(line@, key@));
    if hit {
        let k = lead_len(line, 0, line.len(), &CharClass::Whitespace);
        assert(line@.subrange(0, line@.len() as int) =~= line@);
        proof {
            lemma_lead(line@, ws());
        }
        let mut out = slice_of(line, 0, k);
        assert(out@ =~= leading_ws(line@));
        push_padded(&mut out, key, 28);
        append_str(&mut out, " ");
        append(&mut out, status);
        (out, true)
    } else {
        let out = slice_of(line, 0, line.len());
        assert(out@ =~= line@);
        (out, false)
    }
}

/// Sets `key` to `status` in the text of a state file.
pub fn set_status(content: &str, key: &str, status: &str) -> (res: Result<String, StateError>)
    ensures
        match res {
            Ok(text) => status_values().contains(uppercase(status@)) && has_status_line(content@, key@)
                && text@ == set_status_text(content@, key@, status@),
            Err(StateError::InvalidStatus(s)) => !status_values().contains(uppercase(status@)) && s@
                == uppercase(status@),
            Err(StateError::KeyNotFound(k)) => status_values().contains(uppercase(status@))
                && !has_status_line(content@, key@) && k@ == key@,
        },
{
    let up = string_of(&uppercase_chars(&chars_of(status)));
    set_status_upper(content, key, up.as_str())
}

/// Sets `key` to the status `up`, already uppercased, in the text of a state file.
pub fn set_status_upper(content: &str, key: &str, up_status: &str) -> (res: Result<String, StateError>)
    ensures
        match res {
            Ok(text) => status_values().contains(up_status@) && has_status_line(content@, key@) && text@
                == join(updated_lines(content@, key@, up_status@), "\n"@) + "\n"@,
            Err(StateError::InvalidStatus(s)) => !status_values().contains(up_status@) && s@ == up_status@,
            Err(StateError::KeyNotFound(k)) => status_values().contains(up_status@) && !has_status_line(
                content@,
                key@,
            ) && k@ == key@,
        },
{
    let up = chars_of(up_status);
    if !is_status_value(&up) {
        return Err(StateError::InvalidStatus(string_of(&up)));
    }
    let kv = chars_of(key);
    let cv = chars_of(content);
    let ls = lines_chars(&cv);
    let ghost ul = updated_lines(content@, key@, up@);
    let mut out: Vec<Vec<char>> = Vec::new();
    let mut updated = false;
    let mut i: usize = 0;
    while i < ls.len()
        invariant
            i <= ls.len(),
            seqs_of(ls@) == lines(content@),
            kv@ == key@,
            ul == updated_lines(content@, key@, up@),
            seqs_of(out@) == ul.take(i as int),
            updated == (exists|j: int| 0 <= j < i && status_line_matches(#[trigger] lines(content@)[j], key@)),
        decreases ls.len() - i,
    {
        let (l, hit) = updated_line_exec(&ls[i], &kv, &up);
        let ghost prev = updated;
        if hit {
            updated = true;
        }
        proof {
            assert(seqs_of(ls@)[i as int] == ls@[i as int]@);
            if updated && !prev {
                assert(status_line_matches(lines(content@)[i as int], key@));
            }
            if !updated {
                assert forall|j: int| 0 <= j < i + 1 implies !status_line_matches(#[trigger] lines(content@)[j], key@) by {
                    if j < i {
                        assert(!prev);
                    }
                }
            }
        }
        let ghost before = out@;
        out.push(l);
        assert(seqs_of(out@) =~= seqs_of(before).push(ul[i as int]));
        assert(ul.take(i + 1) =~= ul.take(i as int).push(ul[i as int]));
        i += 1;
    }
    if !updated {
        return Err(StateError::KeyNotFound(string_of(&kv)));
    }
    assert(ul.take(ls.len() as int) =~= ul);
    let mut text = join_chars(&out, "\n");
    append_str(&mut text, "\n");
    Ok(string_of(&text))
}


// ---------------------------------------------------------------------------
// Laws
// ---------------------------------------------------------------------------

proof fn lemma_pending_line(n: Seq<char>)
    requires
        n.len() > 0,
        no_ws(n),
    ensures
        status_line_matches(pending_line(n), n),
        forall|j: int| 0 <= j < pending_line(n).len() ==> #[trigger] pending_line(n)[j] != '\n',
        pending_line(n).last() != '\r',
{
    reveal_strlit("    ");
    reveal_strlit(" PENDING");
    reveal_strlit("PENDING");
    let sp = spaces(28 - n.len());
    let l = pending_line(n);
    assert(l =~= "    "@ + n + sp + " PENDING"@);
    assert(" PENDING"@ =~= seq![' '] + "PENDING"@);
    // leading whitespace: four spaces
    assert forall|j: int| 0 <= j < 4 implies ws()(#[trigger] l[j]) by {
        assert(l[j] == ' ');
    }
    assert(l[4] == n[0]);
    assert(!is_ws(n[0]));
    lemma_lead_unique(l, ws(), 4);
    let t = l.skip(4);
    assert(t.last() == 'G');
    lemma_trail_unique(t, ws(), 0);
    assert(t.take(t.len() as int) =~= t);
    let r = sp + seq![' '];
    assert(trim(l) =~= n + r + "PENDING"@);
    assert forall|j: int| 0 <= j < r.len() implies is_ws(#[trigger] r[j]) by {
        assert(r[j] == ' ');
    }
    lemma_words_first(n, r, "PENDING"@);
    assert forall|j: int| 0 <= j < "PENDING"@.len() implies !is_ws(#[trigger] "PENDING"@[j]) by {
    }
    lemma_words_single("PENDING"@);
    assert(words(trim(l)) =~= seq![n, "PENDING"@]);
    assert(status_values()[2] == "PENDING"@);
    assert forall|j: int| 0 <= j < l.len() implies #[trigger] l[j] != '\n' by {
        if j < 4 {
        } else if j < 4 + n.len() {
            assert(l[j] == n[j - 4]);
            assert(!is_ws(n[j - 4]));
        } else {
        }
    }
}

proof fn lemma_block_line(
    ls: Seq<Seq<char>>,
    before: Seq<Seq<char>>,
    header: Seq<char>,
    names: Seq<Seq<char>>,
    after: Seq<Seq<char>>,
    q: int,
)
    requires
        ls == before + block(true, header, pending_lines(names)) + after,
        0 <= q < names.len(),
        names[q].len() > 0,
        no_ws(names[q]),
    ensures
        has_line_in_text(ls, pending_line(names[q])),
{
    let p = before.len() + 1 + q;
    let b = block(true, header, pending_lines(names));
    assert(b[1 + q] == pending_line(names[q]));
    assert(ls[p] == pending_line(names[q]));
    assert(p < ls.len() - 1);
    lemma_pending_line(names[q]);
    lemma_join_has_line(ls, p);
}

pub open spec fn has_line_in_text(ls: Seq<Seq<char>>, l: Seq<char>) -> bool {
    lines(join(ls, "\n"@)).contains(l)
}

/// Every entity, every flow and every layer of a spec has a status line in the
/// state file generated for it, so `set_status` finds it, provided its name is
/// a single word.
pub proof fn law_generated_state_settable(s: EnthSpecView, name: Seq<char>, x: Seq<char>)
    requires
        x.len() > 0,
        no_ws(x),
        s.entities.contains(x) || (s.flows.len() > 0 && s.flows_order.contains(x)) || (
        s.layers.len() > 0 && s.layers_order.contains(x)),
    ensures
        has_status_line(state_text(s, name), x),
{
    let h = seq!["STATE "@ + name, Seq::<char>::empty()];
    let b1 = block(check_lines(s).len() > 0, "  CHECKS"@, check_lines(s));
    let b2 = block(s.entities.len() > 0, "  ENTITY"@, pending_lines(s.entities));
    let b3 = block(s.flows.len() > 0, "  FLOWS"@, pending_lines(s.flows_order));
    let b4 = block(s.layers.len() > 0, "  LAYERS"@, pending_lines(s.layers_order));
    let ls = state_lines(s, name);
    assert(ls == h + b1 + b2 + b3 + b4);
    if s.entities.contains(x) {
        let q = choose|q: int| 0 <= q < s.entities.len() && s.entities[q] == x;
        assert(ls =~= (h + b1) + b2 + (b3 + b4));
        lemma_block_line(ls, h + b1, "  ENTITY"@, s.entities, b3 + b4, q);
    } else if s.flows.len() > 0 && s.flows_order.contains(x) {
        let q = choose|q: int| 0 <= q < s.flows_order.len() && s.flows_order[q] == x;
        assert(ls =~= (h + b1 + b2) + b3 + b4);
        lemma_block_line(ls, h + b1 + b2, "  FLOWS"@, s.flows_order, b4, q);
    } else {
        let q = choose|q: int| 0 <= q < s.layers_order.len() && s.layers_order[q] == x;
        assert(ls =~= (h + b1 + b2 + b3) + b4 + Seq::<Seq<char>>::empty());
        lemma_block_line(ls, h + b1 + b2 + b3, "  LAYERS"@, s.layers_order, Seq::empty(), q);
    }
    let l = pending_line(x);
    lemma_pending_line(x);
    let lt = lines(state_text(s, name));
    let i = choose|i: int| 0 <= i < lt.len() && lt[i] == l;
    assert(status_line_matches(lt[i], x));
}

proof fn lemma_status_values()
    ensures
        forall|i: int|
            0 <= i < status_values().len() ==> (#[trigger] status_values()[i]).len() > 0 && no_ws(
                status_values()[i],
            ),
{
    reveal_strlit("BUILT");
    reveal_strlit("PARTIAL");
    reveal_strlit("PENDING");
    reveal_strlit("OK");
    reveal_strlit("MISSING");
    reveal_strlit("UNVERIFIED");
    reveal_strlit("SET");
    reveal_strlit("UNSET");
    let sv = status_values();
    assert forall|i: int| 0 <= i < sv.len() implies (#[trigger] sv[i]).len() > 0 && no_ws(sv[i]) by {
        let x = sv[i];
        assert forall|j: int| 0 <= j < x.len() implies !is_ws(#[trigger] x[j]) by {
        }
    }
}

/// A status line, once updated, is a status line of the same key, and updating it again changes nothing.
proof fn lemma_updated_line(l: Seq<char>, k: Seq<char>, up: Seq<char>)
    requires
        status_values().contains(up),
        status_line_matches(l, k),
    ensures
        status_line_matches(updated_line(l, k, up), k),
        updated_line(updated_line(l, k, up), k, up) == updated_line(l, k, up),
        (forall|j: int| 0 <= j < leading_ws(l).len() ==> #[trigger] leading_ws(l)[j] != '\n')
            ==> plain_line(updated_line(l, k, up)),
{
    reveal_strlit(" ");
    lemma_status_values();
    let ui = choose|i: int| 0 <= i < status_values().len() && status_values()[i] == up;
    assert(up.len() > 0 && no_ws(up));
    lemma_words_items(trim(l));
    assert(words(trim(l))[0] == k);
    assert(k.len() > 0 && no_ws(k));
    lemma_lead(l, ws());
    let lw = leading_ws(l);
    let sp = spaces(28 - k.len());
    let l2 = updated_line(l, k, up);
    assert(l2 =~= lw + k + sp + seq![' '] + up);
    assert forall|j: int| 0 <= j < lw.len() implies ws()(#[trigger] l2[j]) by {
        assert(l2[j] == l[j]);
    }
    assert(l2[lw.len() as int] == k[0]);
    lemma_lead_unique(l2, ws(), lw.len() as int);
    assert(leading_ws(l2) =~= lw);
    let t = l2.skip(lw.len() as int);
    assert(t.last() == up.last());
    assert(!is_ws(up[up.len() - 1]));
    lemma_trail_unique(t, ws(), 0);
    assert(t.take(t.len() as int) =~= t);
    let r = sp + seq![' '];
    assert(trim(l2) =~= k + r + up);
    assert forall|j: int| 0 <= j < r.len() implies is_ws(#[trigger] r[j]) by {
        assert(r[j] == ' ');
    }
    lemma_words_first(k, r, up);
    lemma_words_single(up);
    assert(words(trim(l2)) =~= seq![k, up]);
    assert(status_line_matches(l2, k));
    if forall|j: int| 0 <= j < lw.len() ==> #[trigger] lw[j] != '\n' {
        assert forall|j: int| 0 <= j < l2.len() implies #[trigger] l2[j] != '\n' by {
            if j < lw.len() {
                assert(l2[j] == lw[j]);
            } else if j < lw.len() + k.len() {
                assert(l2[j] == k[j - lw.len()]);
                assert(!is_ws(k[j - lw.len()]));
            } else if j < lw.len() + k.len() + sp.len() + 1 {
            } else {
                assert(l2[j] == up[j - (lw.len() + k.len() + sp.len() + 1)]);
                assert(!is_ws(up[j - (lw.len() + k.len() + sp.len() + 1)]));
            }
        }
        assert(l2.last() == up.last());
    }
}

/// Setting the same status twice is setting it once; the result still holds a
/// status line for the key. This holds of state files none of whose lines ends
/// in a carriage return (`str::lines` keeps a lone `\r` at a line's end, which
/// the rewritten file then ends with `\r\n` and loses on the next read).
pub proof fn law_set_status_idempotent(c: Seq<char>, k: Seq<char>, st: Seq<char>)
    requires
        status_values().contains(uppercase(st)),
        has_status_line(c, k),
        forall|i: int| 0 <= i < lines(c).len() ==> !((#[trigger] lines(c)[i]).len() > 0 && lines(c)[i].last() == '\r'),
    ensures
        has_status_line(set_status_text(c, k, st), k),
        set_status_text(set_status_text(c, k, st), k, st) == set_status_text(c, k, st),
{
    let up = uppercase(st);
    let l0 = lines(c);
    let l1 = updated_lines(c, k, up);
    let out = set_status_text(c, k, st);
    lemma_lines_no_newline(c);
    assert forall|i: int| 0 <= i < l1.len() implies plain_line(#[trigger] l1[i]) by {
        let l = l0[i];
        assert(forall|j: int| 0 <= j < l.len() ==> #[trigger] l[j] != '\n');
        if status_line_matches(l, k) {
            lemma_lead(l, ws());
            let lw = leading_ws(l);
            assert forall|j: int| 0 <= j < lw.len() implies #[trigger] lw[j] != '\n' by {
                assert(lw[j] == l[j]);
            }
            lemma_updated_line(l, k, up);
        }
        assert(l1[i] == updated_line(l, k, up));
    }
    let i0 = choose|i: int| 0 <= i < l0.len() && status_line_matches(#[trigger] l0[i], k);
    assert(l1.len() > 0);
    lemma_lines_of_joined(l1);
    assert(lines(out) == l1);
    lemma_updated_line(l0[i0], k, up);
    assert(status_line_matches(l1[i0], k));
    assert(updated_lines(out, k, up) =~= l1) by {
        assert forall|i: int| 0 <= i < l1.len() implies #[trigger] updated_line(l1[i], k, up) == l1[i] by {
            if status_line_matches(l0[i], k) {
                lemma_updated_line(l0[i], k, up);
            }
        }
    }
}
/// The lines that the `CHECKS` block of a state file lists: the `LANG` value,
/// then the `DEPS` `SYSTEM` entries, then the `DEPS` `RUNTIME` entries, each
/// `UNVERIFIED` with its source, and nothing else.
pub open spec fn expected_checks(s: EnthSpecView) -> Seq<Seq<char>> {
    lang_of(s).map_values(|n: Seq<char>| check_line(n, "LANG"@)) + deps_of(s, "SYSTEM"@).map_values(
        |n: Seq<char>| check_line(n, "DEPS.SYSTEM"@),
    ) + deps_of(s, "RUNTIME"@).map_values(|n: Seq<char>| check_line(n, "DEPS.RUNTIME"@))
}

/// The state file opens with its title and a blank line; when the spec names a
/// language or system or runtime dependencies, the `CHECKS` block follows and
/// lists exactly those, in that order (no `DEV` dependency), then a blank line;
/// otherwise there is no `CHECKS` block and the next block follows at once.
pub proof fn law_checks_block(s: EnthSpecView, name: Seq<char>)
    ensures
        state_lines(s, name).subrange(0, 2) == seq!["STATE "@ + name, Seq::<char>::empty()],
        expected_checks(s).len() > 0 ==> state_lines(s, name).subrange(
            2,
            4 + expected_checks(s).len() as int,
        ) == seq!["  CHECKS"@] + expected_checks(s) + seq![Seq::<char>::empty()],
        expected_checks(s).len() == 0 ==> state_lines(s, name).skip(2) == block(
            s.entities.len() > 0,
            "  ENTITY"@,
            pending_lines(s.entities),
        ) + block(s.flows.len() > 0, "  FLOWS"@, pending_lines(s.flows_order)) + block(
            s.layers.len() > 0,
            "  LAYERS"@,
            pending_lines(s.layers_order),
        ),
{
    let cl = expected_checks(s);
    assert(check_lines(s) =~= cl);
    let head = seq!["STATE "@ + name, Seq::<char>::empty()];
    let chk = block(cl.len() > 0, "  CHECKS"@, cl);
    let rest = block(s.entities.len() > 0, "  ENTITY"@, pending_lines(s.entities)) + block(
        s.flows.len() > 0,
        "  FLOWS"@,
        pending_lines(s.flows_order),
    ) + block(s.layers.len() > 0, "  LAYERS"@, pending_lines(s.layers_order));
    let all = state_lines(s, name);
    assert(all =~= head + chk + rest);
    assert(all.subrange(0, 2) =~= head);
    if cl.len() > 0 {
        assert(all.subrange(2, 4 + cl.len() as int) =~= chk);
    } else {
        assert(chk =~= Seq::<Seq<char>>::empty());
        assert(all.skip(2) =~= rest);
    }
}

} // verus!
