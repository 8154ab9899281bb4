//! Naming and file decisions of the command-line tool: which spec file to read,
//! the project's name, the files it derives, and the `.gitignore` it keeps.
use vstd::prelude::*;
use crate::parser::{
    assoc_get, find_project_key, EnthSpec, EnthSpecView, ProjectValue, ProjectValueView,
};
use crate::text::{
    append, append_str, chars_of, join, join_chars, lowercase, lowercase_chars, starts_with,
    starts_with_str, string_of, strip_trail, strs_of, trail_len, trim_quotes, trim_quotes_chars,
    ws, CharClass, lemma_trail, slice_of, seqs_of,
};

verus! {

/// The spec file read when none is named.
pub const DEFAULT_SPEC: &'static str = "enthropic.enth";

/// Why no spec file could be chosen.
#[derive(Debug)]
pub enum ResolveError {
    /// No file was named (or it does not exist) and `enthropic.enth` does not exist.
    NoSpecFile,
}

impl ResolveError {
    /// The text that reports the error.
    pub fn message(&self) -> (res: String)
        ensures
            res@ == "No .enth file specified and enthropic.enth not found in the current directory."@,
    {
        string_of(&chars_of("No .enth file specified and enthropic.enth not found in the current directory."))
    }
}

/// The spec file to read: the named one when it exists, else `enthropic.enth`
/// when that exists. `given_exists` and `default_exists` tell which files exist.
pub fn resolve_spec(given: Option<&str>, given_exists: bool, default_exists: bool) -> (res: Result<String, ResolveError>)
    ensures
        match res {
            Ok(p) => match given {
                Some(g) if given_exists => p@ == g@,
                _ => default_exists && p@ == DEFAULT_SPEC@,
            },
            Err(ResolveError::NoSpecFile) => !(given is Some && given_exists) && !default_exists,
        },
{
    if let Some(g) = given {
        if given_exists {
            return Ok(string_of(&chars_of(g)));
        }
    }
    if default_exists {
        return Ok(string_of(&chars_of(DEFAULT_SPEC)));
    }
    Err(ResolveError::NoSpecFile)
}

/// Spaces turned into underscores.
pub open spec fn underscored(s: Seq<char>) -> Seq<char> {
    s.map_values(|c: char| if c == ' ' { '_' } else { c })
}

pub(crate) fn underscored_chars(s: &Vec<char>) -> (res: Vec<char>)
    ensures
        res@ == underscored(s@),
{
    let mut out: Vec<char> = Vec::new();
    let mut i: usize = 0;
    while i < s.len()
        invariant
            i <= s.len(),
            out@ == underscored(s@).take(i as int),
        decreases s.len() - i,
    {
        out.push(if s[i] == ' ' { '_' } else { s[i] });
        i += 1;
        assert(out@ =~= underscored(s@).take(i as int));
    }
    assert(underscored(s@).take(s@.len() as int) =~= underscored(s@));
    out
}

/// A name as files carry it, from the name already lowercased: spaces become underscores.
pub fn underscore_spaces(lowered: &str) -> (res: String)
    ensures
        res@ == underscored(lowered@),
{
    string_of(&underscored_chars(&chars_of(lowered)))
}

/// The declared `NAME` of the project, when it is a plain string.
pub open spec fn declared_name(s: EnthSpecView) -> Option<Seq<char>> {
    match assoc_get(s.project, "NAME"@) {
        Some(ProjectValueView::Str(n)) => Some(n),
        _ => None,
    }
}

pub(crate) fn declared_name_exec(spec: &EnthSpec) -> (res: Option<Vec<char>>)
    ensures
        match res {
            Some(n) => declared_name(spec@) == Some(n@),
            None => declared_name(spec@) is None,
        },
{
    let key = string_of(&chars_of("NAME"));
    match find_project_key(&spec.project, &key) {
        Some(i) => match &spec.project[i].1 {
            ProjectValue::Str(n) => Some(chars_of(n.as_str())),
            _ => None,
        },
        None => None,
    }
}

/// The project's name as files use it: the declared `NAME`, else the spec file's
/// stem, else `project`; without surrounding quotes, lowercased, spaces as underscores.
pub open spec fn project_name_of(s: EnthSpecView, file_stem: Option<Seq<char>>) -> Seq<char> {
    let raw = match declared_name(s) {
        Some(n) => n,
        None => match file_stem {
            Some(st) => st,
            None => "project"@,
        },
    };
    underscored(lowercase(trim_quotes(raw)))
}

/// The project's name; `file_stem` is the stem of the spec file's name, when it has one.
pub fn project_name(spec: &EnthSpec, file_stem: Option<&str>) -> (res: String)
    ensures
        res@ == project_name_of(
            spec@,
            match file_stem {
                Some(s) => Some(s@),
                None => None,
            },
        ),
{
    let raw = match declared_name_exec(spec) {
        Some(n) => n,
        None => match file_stem {
            Some(st) => chars_of(st),
            None => chars_of("project"),
        },
    };
    let t = trim_quotes_chars(&raw);
    let l = string_of(&lowercase_chars(&t));
    underscore_spaces(l.as_str())
}

/// `state_<name>.enth`: the build-state file of a project.
pub fn state_file_name(name: &str) -> (res: String)
    ensures
        res@ == "state_"@ + name@ + ".enth"@,
{
    let mut v: Vec<char> = Vec::new();
    append_str(&mut v, "state_");
    append_str(&mut v, name);
    append_str(&mut v, ".enth");
    string_of(&v)
}

/// Whether a file name is that of a state file.
pub fn is_state_file(file_name: &str) -> (res: bool)
    ensures
        res == starts_with(file_name@, "state_"@),
{
    starts_with_str(&chars_of(file_name), "state_")
}

// ---------------------------------------------------------------------------
// .gitignore
// ---------------------------------------------------------------------------

/// `str::contains` of a string.
pub open spec fn contains_seq(s: Seq<char>, t: Seq<char>) -> bool {
    exists|i: int| 0 <= i && i + t.len() <= s.len() && #[trigger] s.subrange(i, i + t.len()) == t
}

/// The entries that the text does not contain yet, in order.
pub open spec fn missing_entries(existing: Seq<char>, entries: Seq<Seq<char>>) -> Seq<Seq<char>>
    decreases entries.len(),
{
    if entries.len() == 0 {
        Seq::empty()
    } else {
        missing_entries(existing, entries.drop_last()) + (if contains_seq(existing, entries.last()) {
            Seq::empty()
        } else {
            seq![entries.last()]
        })
    }
}

/// A `.gitignore` that exists gets the missing entries appended after its text
/// (trailing whitespace dropped), one per line; `None` when nothing is missing.
pub open spec fn gitignore_update(existing: Seq<char>, entries: Seq<Seq<char>>) -> Option<Seq<char>> {
    let miss = missing_entries(existing, entries);
    if miss.len() == 0 {
        None
    } else {
        Some(strip_trail(existing, ws()) + "\n"@ + join(miss, "\n"@) + "\n"@)
    }
}

fn contains_chars(s: &Vec<char>, t: &Vec<char>) -> (res: bool)
    ensures
        res == contains_seq(s@, t@),
{
    if t.len() > s.len() {
        return false;
    }
    if t.len() == 0 {
        assert(s@.subrange(0, 0 + t@.len() as int) =~= t@);
        return true;
    }
    let n = s.len() - t.len();
    let mut i: usize = 0;
    while i <= n
        invariant
            0 < t.len() <= s.len(),
            n == s.len() - t.len(),
            i <= n + 1,
            forall|j: int| 0 <= j < i ==> #[trigger] s@.subrange(j, j + t@.len()) != t@,
        decreases n + 1 - i,
    {
        let piece = slice_of(s, i, i + t.len());
        if crate::text::eq_chars(&piece, t) {
            return true;
        }
        i += 1;
    }
    false
}

/// The new text of an existing `.gitignore` that lacks some of `entries`.
pub fn gitignore_update_text(existing: &str, entries: &Vec<String>) -> (res: Option<String>)
    ensures
        match res {
            Some(t) => gitignore_update(existing@, strs_of(entries@)) == Some(t@),
            None => gitignore_update(existing@, strs_of(entries@)) is None,
        },
{
    let ev = chars_of(existing);
    let mut miss: Vec<Vec<char>> = Vec::new();
    let mut i: usize = 0;
    while i < entries.len()
        invariant
            i <= entries.len(),
            ev@ == existing@,
            seqs_of(miss@) == missing_entries(existing@, strs_of(entries@).take(i as int)),
        decreases entries.len() - i,
    {
        let e = chars_of(entries[i].as_str());
        let ghost before = miss@;
        if !contains_chars(&ev, &e) {
            miss.push(e);
        }
        proof {
            let es = strs_of(entries@).take(i + 1);
            assert(es.drop_last() =~= strs_of(entries@).take(i as int));
            assert(es.last() == e@);
            if contains_seq(existing@, e@) {
                assert(seqs_of(miss@) =~= seqs_of(before) + Seq::<Seq<char>>::empty());
            } else {
                assert(seqs_of(miss@) =~= seqs_of(before) + seq![e@]);
            }
        }
        i += 1;
    }
    assert(strs_of(entries@).take(entries.len() as int) =~= strs_of(entries@));
    if miss.len() == 0 {
        return None;
    }
    let b = trail_len(&ev, 0, ev.len(), &CharClass::Whitespace);
    assert(ev@.subrange(0, ev@.len() as int) =~= ev@);
    proof {
        lemma_trail(ev@, ws());
    }
    let mut out = slice_of(&ev, 0, ev.len() - b);
    assert(out@ =~= strip_trail(existing@, ws()));
    append_str(&mut out, "\n");
    let j = join_chars(&miss, "\n");
    append(&mut out, &j);
    append_str(&mut out, "\n");
    Some(string_of(&out))
}

/// The text of a new `.gitignore`: the entries, one per line.
pub fn gitignore_fresh_text(entries: &Vec<String>) -> (res: String)
    ensures
        res@ == join(strs_of(entries@), "\n"@) + "\n"@,
{
    let mut v: Vec<Vec<char>> = Vec::new();
    let mut i: usize = 0;
    while i < entries.len()
        invariant
            i <= entries.len(),
            seqs_of(v@) == strs_of(entries@).take(i as int),
        decreases entries.len() - i,
    {
        let ghost before = v@;
        v.push(chars_of(entries[i].as_str()));
        assert(seqs_of(v@) =~= seqs_of(before).push(entries@[i as int]@));
        assert(strs_of(entries@).take(i + 1) =~= strs_of(entries@).take(i as int).push(entries@[i as int]@));
        i += 1;
    }
    assert(strs_of(entries@).take(entries.len() as int) =~= strs_of(entries@));
    let mut out = join_chars(&v, "\n");
    append_str(&mut out, "\n");
    string_of(&out)
}

/// The generated files that a project keeps out of version control.
pub fn generated_file_patterns() -> (res: Vec<String>)
    ensures
        strs_of(res@) == seq!["vault_*.enth"@, "state_*.enth"@],
{
    let mut v: Vec<String> = Vec::new();
    v.push(string_of(&chars_of("vault_*.enth")));
    v.push(string_of(&chars_of("state_*.enth")));
    assert(strs_of(v@) =~= seq!["vault_*.enth"@, "state_*.enth"@]);
    v
}

/// The entries of a new `.gitignore`: the generated files and `.env`.
pub fn ignore_patterns() -> (res: Vec<String>)
    ensures
        strs_of(res@) == seq!["vault_*.enth"@, "state_*.enth"@, ".env"@],
{
    let mut v = generated_file_patterns();
    let ghost before = v@;
    v.push(string_of(&chars_of(".env")));
    assert(strs_of(v@) =~= strs_of(before).push(".env"@));
    assert(strs_of(v@) =~= seq!["vault_*.enth"@, "state_*.enth"@, ".env"@]);
    v
}


// ---------------------------------------------------------------------------
// Laws
// ---------------------------------------------------------------------------

proof fn lemma_missing(x: Seq<char>, es: Seq<Seq<char>>)
    ensures
        forall|e: Seq<char>| #[trigger] missing_entries(x, es).contains(e) <==> (es.contains(e) && !contains_seq(x, e)),
    decreases es.len(),
{
    if es.len() > 0 {
        lemma_missing(x, es.drop_last());
        let m0 = missing_entries(x, es.drop_last());
        let l = es.last();
        let tail = if contains_seq(x, l) { Seq::<Seq<char>>::empty() } else { seq![l] };
        assert(missing_entries(x, es) == m0 + tail);
        assert forall|e: Seq<char>| #[trigger] missing_entries(x, es).contains(e) <==> (es.contains(e) && !contains_seq(x, e)) by {
            if missing_entries(x, es).contains(e) {
                let j = choose|j: int| 0 <= j < (m0 + tail).len() && (m0 + tail)[j] == e;
                if j < m0.len() {
                    assert(m0.contains(e));
                    let q = choose|q: int| 0 <= q < es.drop_last().len() && es.drop_last()[q] == e;
                    assert(es[q] == e);
                } else {
                    assert(es[es.len() - 1] == e);
                }
            }
            if es.contains(e) && !contains_seq(x, e) {
                let q = choose|q: int| 0 <= q < es.len() && es[q] == e;
                if q < es.len() - 1 {
                    assert(es.drop_last()[q] == e);
                    assert(es.drop_last().contains(e));
                    assert(m0.contains(e));
                    let j = choose|j: int| 0 <= j < m0.len() && m0[j] == e;
                    assert((m0 + tail)[j] == e);
                } else {
                    assert((m0 + tail)[m0.len() as int] == e);
                }
            }
        }
    }
}

proof fn lemma_contains_in_middle(a: Seq<char>, b: Seq<char>, c: Seq<char>, e: Seq<char>)
    requires
        contains_seq(b, e),
    ensures
        contains_seq(a + b + c, e),
{
    let i = choose|i: int| 0 <= i && i + e.len() <= b.len() && #[trigger] b.subrange(i, i + e.len()) == e;
    let y = a + b + c;
    assert(y.subrange(a.len() + i, a.len() + i + e.len()) =~= b.subrange(i, i + e.len()));
}

proof fn lemma_join_contains(ls: Seq<Seq<char>>, sep: Seq<char>, q: int)
    requires
        0 <= q < ls.len(),
    ensures
        contains_seq(join(ls, sep), ls[q]),
    decreases ls.len(),
{
    if ls.len() == 1 {
        assert(ls[0].subrange(0, 0 + ls[0].len() as int) =~= ls[0]);
        lemma_contains_in_middle(Seq::empty(), ls[0], Seq::empty(), ls[0]);
        assert(Seq::<char>::empty() + ls[0] + Seq::<char>::empty() =~= join(ls, sep));
    } else if q == ls.len() - 1 {
        assert(ls.last().subrange(0, 0 + ls.last().len() as int) =~= ls.last());
        lemma_contains_in_middle(join(ls.drop_last(), sep) + sep, ls.last(), Seq::empty(), ls[q]);
        assert(join(ls.drop_last(), sep) + sep + ls.last() + Seq::<char>::empty() =~= join(ls, sep));
    } else {
        lemma_join_contains(ls.drop_last(), sep, q);
        assert(ls.drop_last()[q] == ls[q]);
        lemma_contains_in_middle(Seq::empty(), join(ls.drop_last(), sep), sep + ls.last(), ls[q]);
        assert(Seq::<char>::empty() + join(ls.drop_last(), sep) + (sep + ls.last()) =~= join(ls, sep));
    }
}

/// Updating a `.gitignore` twice adds nothing the second time, for entries that
/// are not empty and do not end in whitespace.
#[verifier::spinoff_prover]
pub proof fn law_gitignore_update_idempotent(x: Seq<char>, es: Seq<Seq<char>>)
    requires
        forall|i: int| 0 <= i < es.len() ==> (#[trigger] es[i]).len() > 0 && !crate::text::is_ws(es[i].last()),
    ensures
        gitignore_update(x, es) matches Some(y) ==> gitignore_update(y, es) is None,
{
    if let Some(y) = gitignore_update(x, es) {
        let miss = missing_entries(x, es);
        lemma_missing(x, es);
        lemma_trail(x, ws());
        let tx = strip_trail(x, ws());
        reveal_strlit("\n");
        assert(y == tx + "\n"@ + join(miss, "\n"@) + "\n"@);
        lemma_missing(y, es);
        assert forall|e: Seq<char>| es.contains(e) implies contains_seq(y, e) by {
            let q = choose|q: int| 0 <= q < es.len() && es[q] == e;
            assert(e.len() > 0 && !crate::text::is_ws(e.last()));
            if contains_seq(x, e) {
                let i = choose|i: int| 0 <= i && i + e.len() <= x.len() && #[trigger] x.subrange(i, i + e.len()) == e;
                let endpos = i + e.len() - 1;
                assert(x[endpos] == e.last());
                assert(endpos < tx.len());
                assert(tx.subrange(i, i + e.len()) =~= e);
                lemma_contains_in_middle(Seq::empty(), tx, "\n"@ + join(miss, "\n"@) + "\n"@, e);
                assert(Seq::<char>::empty() + tx + ("\n"@ + join(miss, "\n"@) + "\n"@) =~= y);
            } else {
                assert(miss.contains(e));
                let j = choose|j: int| 0 <= j < miss.len() && miss[j] == e;
                lemma_join_contains(miss, "\n"@, j);
                lemma_contains_in_middle(tx + "\n"@, join(miss, "\n"@), "\n"@, e);
            }
        }
        let m2 = missing_entries(y, es);
        if m2.len() > 0 {
            assert(m2.contains(m2[0]));
        }
    }
}
} // verus!
