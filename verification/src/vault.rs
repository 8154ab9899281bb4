//! Project secrets: the encrypted vault of a project and its status file `vault_<project>.enth`.
use vstd::prelude::*;
use crate::parser::{
    assoc_get, assoc_insert, keyed, first_with, is_first_with, keys_distinct,
    lemma_first_with_props, lemma_first_with_some, lemma_first_with_none,
};
use crate::store::{assoc_remove, map_keys, pairs_view, SecretMap};
use crate::text::{
    append_str, chars_of, join, join_chars, pad_right, push_padded, seqs_of, string_of, strs_of,
};

verus! {

// ---------------------------------------------------------------------------
// File names
// ---------------------------------------------------------------------------

/// `<project>.key`: the file that holds a project's vault key.
pub fn key_file_name(project: &str) -> (res: String)
    ensures
        res@ == project@ + ".key"@,
{
    let mut v = chars_of(project);
    append_str(&mut v, ".key");
    string_of(&v)
}

/// `<project>.secrets`: the file that holds a project's encrypted secrets.
pub fn secrets_file_name(project: &str) -> (res: String)
    ensures
        res@ == project@ + ".secrets"@,
{
    let mut v = chars_of(project);
    append_str(&mut v, ".secrets");
    string_of(&v)
}

/// `vault_<project>.enth`: the status file of a project's vault.
pub fn vault_file_name(project: &str) -> (res: String)
    ensures
        res@ == "vault_"@ + project@ + ".enth"@,
{
    let mut v: Vec<char> = Vec::new();
    append_str(&mut v, "vault_");
    append_str(&mut v, project);
    append_str(&mut v, ".enth");
    string_of(&v)
}

// ---------------------------------------------------------------------------
// The status file
// ---------------------------------------------------------------------------

pub open spec fn vault_status_line(existing: Seq<(Seq<char>, Seq<char>)>, name: Seq<char>) -> Seq<char> {
    "  "@ + pad_right(name, 28) + " "@ + (if assoc_get(existing, name) is Some {
        "SET"@
    } else {
        "UNSET"@
    })
}

pub open spec fn vault_lines(
    project: Seq<char>,
    names: Seq<Seq<char>>,
    existing: Seq<(Seq<char>, Seq<char>)>,
) -> Seq<Seq<char>> {
    seq!["VAULT "@ + project, Seq::<char>::empty()] + (if names.len() == 0 {
        seq!["  # no secrets declared in spec"@]
    } else {
        names.map_values(|n: Seq<char>| vault_status_line(existing, n))
    }) + seq![Seq::<char>::empty()]
}

/// The status file: each declared secret, `SET` when the vault holds it, else `UNSET`.
pub open spec fn vault_text(
    project: Seq<char>,
    names: Seq<Seq<char>>,
    existing: Seq<(Seq<char>, Seq<char>)>,
) -> Seq<char> {
    join(vault_lines(project, names, existing), "\n"@)
}

pub open spec fn existing_view(existing: Option<&SecretMap>) -> Seq<(Seq<char>, Seq<char>)> {
    match existing {
        Some(m) => m@,
        None => Seq::empty(),
    }
}

/// The status file of a project whose spec declares `secret_names`; `existing`
/// is the vault when it could be opened (a vault that cannot be read counts as empty).
pub fn generate_vault_file(project: &str, secret_names: &Vec<String>, existing: Option<&SecretMap>) -> (res: String)
    ensures
        res@ == vault_text(project@, strs_of(secret_names@), existing_view(existing)),
{
    let empty = SecretMap::new();
    let m: &SecretMap = match existing {
        Some(m) => m,
        None => &empty,
    };
    let ghost ev = existing_view(existing);
    assert(m@ == ev);
    let mut out: Vec<Vec<char>> = Vec::new();
    let mut first: Vec<char> = Vec::new();
    append_str(&mut first, "VAULT ");
    append_str(&mut first, project);
    out.push(first);
    out.push(Vec::new());
    let ghost head = seq!["VAULT "@ + project@, Seq::<char>::empty()];
    assert(seqs_of(out@) =~= head);
    if secret_names.len() == 0 {
        out.push(chars_of("  # no secrets declared in spec"));
        assert(seqs_of(out@) =~= head + seq!["  # no secrets declared in spec"@]);
    } else {
        let ghost body = strs_of(secret_names@).map_values(|n: Seq<char>| vault_status_line(ev, n));
        let mut i: usize = 0;
        assert(seqs_of(out@) =~= head + body.take(0));
        while i < secret_names.len()
            invariant
                i <= secret_names.len(),
                m@ == ev,
                body == strs_of(secret_names@).map_values(|n: Seq<char>| vault_status_line(ev, n)),
                seqs_of(out@) == head + body.take(i as int),
            decreases secret_names.len() - i,
        {
            let n = chars_of(secret_names[i].as_str());
            let mut l: Vec<char> = Vec::new();
            append_str(&mut l, "  ");
            push_padded(&mut l, &n, 28);
            append_str(&mut l, " ");
            if m.contains_key(secret_names[i].as_str()) {
                append_str(&mut l, "SET");
            } else {
                append_str(&mut l, "UNSET");
            }
            assert(l@ =~= vault_status_line(ev, secret_names@[i as int]@));
            let ghost before = out@;
            out.push(l);
            assert(seqs_of(out@) =~= seqs_of(before).push(body[i as int]));
            assert(body.take(i + 1) =~= body.take(i as int).push(body[i as int]));
            i += 1;
        }
        assert(body.take(secret_names.len() as int) =~= body);
    }
    let ghost before = out@;
    out.push(Vec::new());
    assert(seqs_of(out@) =~= seqs_of(before).push(Seq::<char>::empty()));
    assert(seqs_of(out@) =~= vault_lines(project@, strs_of(secret_names@), ev));
    let text = join_chars(&out, "\n");
    string_of(&text)
}

// ---------------------------------------------------------------------------
// Operations on the secrets
// ---------------------------------------------------------------------------

/// Stores `value` under `key`.
pub fn set_secret(secrets: &mut SecretMap, key: &str, value: &str)
    ensures
        final(secrets)@ == assoc_insert(old(secrets)@, key@, value@),
{
    secrets.insert(key, value);
}

/// Why a vault operation was refused.
#[derive(Debug)]
pub enum VaultError {
    /// The vault holds no secret of this name.
    KeyNotFound(String),
}

impl VaultError {
    /// The text that reports the error.
    pub open spec fn text(&self) -> Seq<char> {
        match self {
            VaultError::KeyNotFound(k) => "Key '"@ + k@ + "' not found in vault"@,
        }
    }

    /// The text that reports the error.
    pub fn message(&self) -> (res: String)
        ensures
            res@ == self.text(),
    {
        let mut out: Vec<char> = Vec::new();
        match self {
            VaultError::KeyNotFound(k) => {
                append_str(&mut out, "Key '");
                append_str(&mut out, k.as_str());
                append_str(&mut out, "' not found in vault");
            },
        }
        string_of(&out)
    }
}

/// Removes the secret `key`; a key that the vault does not hold is an error,
/// and the vault is then left as it was.
pub fn delete_secret(secrets: &mut SecretMap, key: &str) -> (res: Result<(), VaultError>)
    ensures
        match res {
            Ok(()) => assoc_get(old(secrets)@, key@) is Some && final(secrets)@ == assoc_remove(
                old(secrets)@,
                key@,
            ),
            Err(VaultError::KeyNotFound(k)) => assoc_get(old(secrets)@, key@) is None && k@ == key@
                && final(secrets)@ == old(secrets)@,
        },
{
    if !secrets.contains_key(key) {
        return Err(VaultError::KeyNotFound(string_of(&chars_of(key))));
    }
    secrets.remove(key);
    Ok(())
}

/// The names of the stored secrets, in the vault's order.
pub fn list_keys(secrets: &SecretMap) -> (res: Vec<String>)
    ensures
        strs_of(res@) == map_keys(secrets@),
{
    secrets.keys()
}

pub open spec fn env_line(e: (Seq<char>, Seq<char>)) -> Seq<char> {
    e.0 + "=\""@ + e.1 + "\""@
}

/// The secrets as `.env` lines `KEY="value"`, joined with `"\n"`.
pub open spec fn env_text(m: Seq<(Seq<char>, Seq<char>)>) -> Seq<char> {
    join(m.map_values(|e: (Seq<char>, Seq<char>)| env_line(e)), "\n"@)
}

/// The decrypted secrets as the text of a `.env` file.
pub fn export_env(secrets: &SecretMap) -> (res: String)
    ensures
        res@ == env_text(secrets@),
{
    let entries = secrets.entries();
    let ghost ls = secrets@.map_values(|e: (Seq<char>, Seq<char>)| env_line(e));
    let mut out: Vec<Vec<char>> = Vec::new();
    let mut i: usize = 0;
    while i < entries.len()
        invariant
            i <= entries.len(),
            pairs_view(entries@) == secrets@,
            ls == secrets@.map_values(|e: (Seq<char>, Seq<char>)| env_line(e)),
            seqs_of(out@) == ls.take(i as int),
        decreases entries.len() - i,
    {
        let mut l = chars_of(entries[i].0.as_str());
        append_str(&mut l, "=\"");
        append_str(&mut l, entries[i].1.as_str());
        append_str(&mut l, "\"");
        assert(l@ =~= env_line(secrets@[i as int]));
        let ghost before = out@;
        out.push(l);
        assert(seqs_of(out@) =~= seqs_of(before).push(ls[i as int]));
        assert(ls.take(i + 1) =~= ls.take(i as int).push(ls[i as int]));
        i += 1;
    }
    assert(ls.take(entries.len() as int) =~= ls);
    let text = join_chars(&out, "\n");
    string_of(&text)
}


// ---------------------------------------------------------------------------
// Laws
// ---------------------------------------------------------------------------

/// A secret reads back as the value last set for it.
pub proof fn law_set_then_get(m: Seq<(Seq<char>, Seq<char>)>, k: Seq<char>, v: Seq<char>)
    ensures
        assoc_get(assoc_insert(m, k, v), k) == Some(v),
        map_keys(assoc_insert(m, k, v)).contains(k),
{
    let p = keyed::<Seq<char>>(k);
    lemma_first_with_props(m, p);
    let m2 = assoc_insert(m, k, v);
    match first_with(m, p) {
        Some(i) => {
            assert(is_first_with(m2, p, i));
            lemma_first_with_some(m2, p, i);
            assert(map_keys(m2)[i] == k);
        },
        None => {
            assert(is_first_with(m2, p, m.len() as int));
            lemma_first_with_some(m2, p, m.len() as int);
            assert(map_keys(m2)[m.len() as int] == k);
        },
    }
}

/// Setting a secret leaves every other secret as it was.
pub proof fn law_set_keeps_others(
    m: Seq<(Seq<char>, Seq<char>)>,
    k: Seq<char>,
    v: Seq<char>,
    k2: Seq<char>,
)
    requires
        k2 != k,
    ensures
        assoc_get(assoc_insert(m, k, v), k2) == assoc_get(m, k2),
{
    let p = keyed::<Seq<char>>(k);
    let q = keyed::<Seq<char>>(k2);
    lemma_first_with_props(m, p);
    lemma_first_with_props(m, q);
    let m2 = assoc_insert(m, k, v);
    assert forall|j: int| 0 <= j < m2.len() && j < m.len() && m2[j] != m[j] implies !q(
        #[trigger] m2[j],
    ) && !q(m[j]) by {
    }
    match first_with(m, q) {
        Some(j) => {
            assert(is_first_with(m2, q, j));
            lemma_first_with_some(m2, q, j);
        },
        None => {
            assert forall|j: int| 0 <= j < m2.len() implies !q(#[trigger] m2[j]) by {
                if j < m.len() {
                    assert(!q(m[j]));
                }
            }
            lemma_first_with_none(m2, q);
        },
    }
}

/// A deleted secret is gone, in a vault that holds each name once.
pub proof fn law_delete_then_get(m: Seq<(Seq<char>, Seq<char>)>, k: Seq<char>)
    requires
        keys_distinct(m),
    ensures
        assoc_get(assoc_remove(m, k), k) is None,
        !map_keys(assoc_remove(m, k)).contains(k),
{
    let p = keyed::<Seq<char>>(k);
    lemma_first_with_props(m, p);
    let m2 = assoc_remove(m, k);
    match first_with(m, p) {
        Some(i) => {
            assert forall|j: int| 0 <= j < m2.len() implies !p(#[trigger] m2[j]) by {
                let j2 = if j < i { j } else { j + 1 };
                assert(m2[j] == m[j2]);
                assert(j2 != i);
            }
        },
        None => {},
    }
    lemma_first_with_none(m2, p);
    if map_keys(m2).contains(k) {
        let j = choose|j: int| 0 <= j < map_keys(m2).len() && map_keys(m2)[j] == k;
        assert(!p(m2[j]));
    }
}

/// Deleting a secret leaves every other secret as it was, in a vault that holds each name once.
pub proof fn law_delete_keeps_others(m: Seq<(Seq<char>, Seq<char>)>, k: Seq<char>, k2: Seq<char>)
    requires
        keys_distinct(m),
        k2 != k,
    ensures
        assoc_get(assoc_remove(m, k), k2) == assoc_get(m, k2),
{
    let p = keyed::<Seq<char>>(k);
    let q = keyed::<Seq<char>>(k2);
    lemma_first_with_props(m, p);
    lemma_first_with_props(m, q);
    let m2 = assoc_remove(m, k);
    match first_with(m, p) {
        Some(i) => {
            match first_with(m, q) {
                Some(j) => {
                    assert(j != i);
                    let j2 = if j < i { j } else { j - 1 };
                    assert(m2[j2] == m[j]);
                    assert forall|l: int| 0 <= l < j2 implies !q(#[trigger] m2[l]) by {
                        let l2 = if l < i { l } else { l + 1 };
                        assert(m2[l] == m[l2]);
                    }
                    assert(is_first_with(m2, q, j2));
                    lemma_first_with_some(m2, q, j2);
                },
                None => {
                    assert forall|l: int| 0 <= l < m2.len() implies !q(#[trigger] m2[l]) by {
                        let l2 = if l < i { l } else { l + 1 };
                        assert(m2[l] == m[l2]);
                    }
                    lemma_first_with_none(m2, q);
                },
            }
        },
        None => {},
    }
}

/// A secret that has just been set shows as `SET` in the status file.
pub proof fn law_set_shows_set(m: Seq<(Seq<char>, Seq<char>)>, k: Seq<char>, v: Seq<char>)
    ensures
        vault_status_line(assoc_insert(m, k, v), k) == "  "@ + pad_right(k, 28) + " "@ + "SET"@,
{
    law_set_then_get(m, k, v);
}

} // verus!
