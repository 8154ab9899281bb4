//! The `.enth` file that the new-project wizard writes from its answers.
use vstd::prelude::*;
use crate::text::{
    append, append_str, chars_of, join, join_chars, lowercase, lowercase_chars, string_of,
    strs_of, trim, trim_chars, trim_quotes, trim_quotes_chars, chars_list,
};
use crate::project::underscored;

verus! {

/// A layer as the wizard asks for it.
pub struct LayerDef {
    pub name: String,
    pub calls: Vec<String>,
    pub never: Vec<String>,
}

/// What the wizard asked.
pub struct WizardAnswers {
    pub project_name: String,
    pub lang: String,
    pub arch: String,
    pub stack: Vec<String>,
    pub entities: Vec<String>,
    pub layers: Vec<LayerDef>,
    pub secrets: Vec<String>,
}

pub open spec fn line_if(cond: bool, text: Seq<char>) -> Seq<char> {
    if cond {
        text
    } else {
        Seq::empty()
    }
}

pub open spec fn project_block(a: WizardAnswers) -> Seq<char> {
    "VERSION 1\n\n"@ + "PROJECT \""@ + trim_quotes(trim(a.project_name@)) + "\"\n"@ + "  LANG "@
        + a.lang@ + "\n"@ + "  ARCH "@ + a.arch@ + "\n"@ + line_if(
        a.stack@.len() > 0,
        "  STACK "@ + join(strs_of(a.stack@), ", "@) + "\n"@,
    ) + "\n"@
}

pub open spec fn entity_block(a: WizardAnswers) -> Seq<char> {
    line_if(a.entities@.len() > 0, "ENTITY "@ + join(strs_of(a.entities@), ", "@) + "\n\n"@)
}

pub open spec fn never_lines(never: Seq<Seq<char>>) -> Seq<char> {
    never.map_values(|n: Seq<char>| "    NEVER "@ + n + "\n"@).flatten_alt()
}

pub open spec fn layer_text(l: LayerDef) -> Seq<char> {
    "  "@ + l.name@ + "\n"@ + line_if(
        l.calls@.len() > 0,
        "    CALLS "@ + join(strs_of(l.calls@), ", "@) + "\n"@,
    ) + never_lines(strs_of(l.never@))
}

pub open spec fn layers_block(a: WizardAnswers) -> Seq<char> {
    line_if(
        a.layers@.len() > 0,
        "LAYERS\n"@ + a.layers@.map_values(|l: LayerDef| layer_text(l)).flatten_alt() + "\n"@,
    )
}

pub open spec fn secret_lines(secrets: Seq<Seq<char>>) -> Seq<char> {
    secrets.map_values(|s: Seq<char>| "  "@ + s + "\n"@).flatten_alt()
}

pub open spec fn secrets_block(a: WizardAnswers) -> Seq<char> {
    line_if(a.secrets@.len() > 0, "SECRETS\n"@ + secret_lines(strs_of(a.secrets@)) + "\n"@)
}

/// The text of the spec file that the wizard writes.
pub open spec fn rendered_spec(a: WizardAnswers) -> Seq<char> {
    project_block(a) + entity_block(a) + layers_block(a) + secrets_block(a)
}

proof fn lemma_flatten_step(s: Seq<Seq<char>>, i: int)
    requires
        0 <= i < s.len(),
    ensures
        s.take(i + 1).flatten_alt() == s.take(i).flatten_alt() + s[i],
{
    assert(s.take(i + 1).drop_last() =~= s.take(i));
}

fn push_prefixed_lines(out: &mut Vec<char>, prefix: &str, items: &Vec<String>)
    ensures
        final(out)@ == old(out)@ + strs_of(items@).map_values(|n: Seq<char>| prefix@ + n + "\n"@).flatten_alt(),
{
    let ghost ls = strs_of(items@).map_values(|n: Seq<char>| prefix@ + n + "\n"@);
    let mut i: usize = 0;
    assert(ls.take(0).flatten_alt() =~= Seq::<char>::empty());
    assert(out@ =~= old(out)@ + ls.take(0).flatten_alt());
    while i < items.len()
        invariant
            i <= items.len(),
            ls == strs_of(items@).map_values(|n: Seq<char>| prefix@ + n + "\n"@),
            out@ == old(out)@ + ls.take(i as int).flatten_alt(),
        decreases items.len() - i,
    {
        append_str(out, prefix);
        append_str(out, items[i].as_str());
        append_str(out, "\n");
        proof {
            lemma_flatten_step(ls, i as int);
            assert(out@ =~= old(out)@ + ls.take(i + 1).flatten_alt());
        }
        i += 1;
    }
    assert(ls.take(items.len() as int) =~= ls);
}

fn push_layer(out: &mut Vec<char>, l: &LayerDef)
    ensures
        final(out)@ == old(out)@ + layer_text(*l),
{
    append_str(out, "  ");
    append_str(out, l.name.as_str());
    append_str(out, "\n");
    let ghost mid = out@;
    if l.calls.len() > 0 {
        append_str(out, "    CALLS ");
        append(out, &join_chars(&chars_list(&l.calls), ", "));
        append_str(out, "\n");
    }
    assert(out@ =~= mid + line_if(l.calls@.len() > 0, "    CALLS "@ + join(strs_of(l.calls@), ", "@) + "\n"@));
    push_prefixed_lines(out, "    NEVER ", &l.never);
    assert(out@ =~= old(out)@ + layer_text(*l));
}

/// The text of the spec file for the wizard's answers.
#[verifier::spinoff_prover]
#[verifier::rlimit(40)]
pub fn render_spec(a: &WizardAnswers) -> (res: String)
    ensures
        res@ == rendered_spec(*a),
{
    let mut out: Vec<char> = Vec::new();
    append_str(&mut out, "VERSION 1\n\n");
    append_str(&mut out, "PROJECT \"");
    append(&mut out, &trim_quotes_chars(&trim_chars(&chars_of(a.project_name.as_str()))));
    append_str(&mut out, "\"\n");
    append_str(&mut out, "  LANG ");
    append_str(&mut out, a.lang.as_str());
    append_str(&mut out, "\n");
    append_str(&mut out, "  ARCH ");
    append_str(&mut out, a.arch.as_str());
    append_str(&mut out, "\n");
    if a.stack.len() > 0 {
        append_str(&mut out, "  STACK ");
        append(&mut out, &join_chars(&chars_list(&a.stack), ", "));
        append_str(&mut out, "\n");
    }
    append_str(&mut out, "\n");
    assert(out@ =~= project_block(*a));
    if a.entities.len() > 0 {
        append_str(&mut out, "ENTITY ");
        append(&mut out, &join_chars(&chars_list(&a.entities), ", "));
        append_str(&mut out, "\n\n");
    }
    assert(out@ =~= project_block(*a) + entity_block(*a));
    let ghost before_layers = out@;
    if a.layers.len() > 0 {
        append_str(&mut out, "LAYERS\n");
        let ghost base = out@;
        let ghost ls = a.layers@.map_values(|l: LayerDef| layer_text(l));
        let mut i: usize = 0;
        assert(out@ =~= base + ls.take(0).flatten_alt());
        while i < a.layers.len()
            invariant
                i <= a.layers.len(),
                ls == a.layers@.map_values(|l: LayerDef| layer_text(l)),
                out@ == base + ls.take(i as int).flatten_alt(),
            decreases a.layers.len() - i,
        {
            push_layer(&mut out, &a.layers[i]);
            proof {
                lemma_flatten_step(ls, i as int);
                assert(out@ =~= base + ls.take(i + 1).flatten_alt());
            }
            i += 1;
        }
        assert(ls.take(a.layers.len() as int) =~= ls);
        append_str(&mut out, "\n");
    }
    assert(out@ =~= before_layers + layers_block(*a));
    let ghost before_secrets = out@;
    if a.secrets.len() > 0 {
        append_str(&mut out, "SECRETS\n");
        push_prefixed_lines(&mut out, "  ", &a.secrets);
        append_str(&mut out, "\n");
    }
    assert(out@ =~= before_secrets + secrets_block(*a));
    assert(out@ =~= rendered_spec(*a));
    string_of(&out)
}

/// The name that the wizard's files carry: the project name trimmed,
/// lowercased, spaces as underscores.
pub fn project_slug(name: &str) -> (res: String)
    ensures
        res@ == underscored(lowercase(trim(name@))),
{
    let t = trim_chars(&chars_of(name));
    let l = string_of(&lowercase_chars(&t));
    crate::project::underscore_spaces(l.as_str())
}

/// The languages the wizard offers.
pub fn languages() -> (res: Vec<String>)
    ensures
        strs_of(res@) == seq!["python"@, "rust"@, "typescript"@, "go"@, "other"@],
{
    let mut v: Vec<String> = Vec::new();
    v.push(string_of(&chars_of("python")));
    v.push(string_of(&chars_of("rust")));
    v.push(string_of(&chars_of("typescript")));
    v.push(string_of(&chars_of("go")));
    v.push(string_of(&chars_of("other")));
    assert(strs_of(v@) =~= seq!["python"@, "rust"@, "typescript"@, "go"@, "other"@]);
    v
}

/// The architecture styles the wizard offers.
pub fn arch_styles() -> (res: Vec<String>)
    ensures
        strs_of(res@) == seq!["layered"@, "event-driven"@, "realtime"@, "offline-first"@, "other"@],
{
    let mut v: Vec<String> = Vec::new();
    v.push(string_of(&chars_of("layered")));
    v.push(string_of(&chars_of("event-driven")));
    v.push(string_of(&chars_of("realtime")));
    v.push(string_of(&chars_of("offline-first")));
    v.push(string_of(&chars_of("other")));
    assert(strs_of(v@) =~= seq!["layered"@, "event-driven"@, "realtime"@, "offline-first"@, "other"@]);
    v
}

} // verus!
