//! The spec file that the new-project wizard writes, read back by the parser.
use vstd::prelude::*;
use crate::parser::{
    after, empty_spec, parse_spec, project_header, top_step, with_deps, assoc_get, assoc_insert,
    at_top, first_with, first_words, ind, indent_len, is_blank, is_first_with, keyed,
    layers_section, layer_line, layer_named, new_layer, upsert_layer, LayerView, lemma_first_with_none, lemma_first_with_props, lemma_first_with_some,
    parse_lines, project_entry, project_section, section_end, strip_comment, tok, EnthSpecView,
    ProjectValueView,
};
use crate::text::{
    comma_list, has_char, lemma_words_single, no_ws, non_ws, split_ws_once, words, indent_char,
    is_ws, join, lemma_lead, lemma_lead_unique, lemma_pos, lemma_trim_noop, lines, plain_line,
    lemma_lines_append, lemma_lines_one, pos, strs_of, trim, trim_quotes,
};
use crate::wizard::{
    entity_block, layer_text, layers_block, never_lines, project_block, rendered_spec,
    secret_lines, secrets_block, LayerDef, WizardAnswers,
};

verus! {

// ---------------------------------------------------------------------------
// Texts made of lines
// ---------------------------------------------------------------------------

/// The text whose lines are `ls`, each followed by a newline.
pub open spec fn text_of(ls: Seq<Seq<char>>) -> Seq<char> {
    ls.map_values(|l: Seq<char>| l + seq!['\n']).flatten_alt()
}

proof fn lemma_text_of_push(ls: Seq<Seq<char>>, l: Seq<char>)
    ensures
        text_of(ls.push(l)) == text_of(ls) + l + seq!['\n'],
{
    let f = |x: Seq<char>| x + seq!['\n'];
    assert(ls.push(l).map_values(f).drop_last() =~= ls.map_values(f));
    assert(ls.push(l).map_values(f).last() == l + seq!['\n']);
}

proof fn lemma_text_of_concat(a: Seq<Seq<char>>, b: Seq<Seq<char>>)
    ensures
        text_of(a + b) == text_of(a) + text_of(b),
    decreases b.len(),
{
    if b.len() == 0 {
        assert(a + b =~= a);
        assert(text_of(b) =~= Seq::<char>::empty());
    } else {
        let bl = b.drop_last();
        lemma_text_of_concat(a, bl);
        assert(a + b =~= (a + bl).push(b.last()));
        assert(b =~= bl.push(b.last()));
        lemma_text_of_push(a + bl, b.last());
        lemma_text_of_push(bl, b.last());
    }
}

/// Reading the lines of a text made of plain lines gives them back.
proof fn lemma_lines_text_of(ls: Seq<Seq<char>>)
    requires
        forall|i: int| 0 <= i < ls.len() ==> plain_line(#[trigger] ls[i]),
    ensures
        lines(text_of(ls)) == ls,
    decreases ls.len(),
{
    if ls.len() == 0 {
        assert(text_of(ls) =~= Seq::<char>::empty());
        assert(lines(text_of(ls)) =~= ls);
    } else {
        let init = ls.drop_last();
        let l = ls.last();
        assert(ls =~= init.push(l));
        lemma_text_of_push(init, l);
        assert(plain_line(ls[ls.len() - 1]));
        lemma_lines_one(l);
        assert(text_of(ls) =~= text_of(init) + (l + seq!['\n']));
        if init.len() == 0 {
            assert(text_of(init) =~= Seq::<char>::empty());
            assert(text_of(ls) =~= l + seq!['\n']);
        } else {
            assert forall|i: int| 0 <= i < init.len() implies plain_line(#[trigger] init[i]) by {
                assert(init[i] == ls[i]);
            }
            lemma_lines_text_of(init);
            lemma_text_of_push(init.drop_last(), init.last());
            assert(init =~= init.drop_last().push(init.last()));
            let t = text_of(init);
            assert(t.len() > 0 && t.last() == '\n');
            lemma_lines_append(t, l + seq!['\n']);
            assert(lines(text_of(ls)) =~= ls);
        }
    }
}

// ---------------------------------------------------------------------------
// The lines of the wizard's spec file
// ---------------------------------------------------------------------------

pub open spec fn project_lines(a: WizardAnswers) -> Seq<Seq<char>> {
    seq![
        "VERSION 1"@,
        Seq::<char>::empty(),
        "PROJECT \""@ + trim_quotes(trim(a.project_name@)) + "\""@,
        "  LANG "@ + a.lang@,
        "  ARCH "@ + a.arch@,
    ] + (if a.stack@.len() > 0 {
        seq!["  STACK "@ + join(strs_of(a.stack@), ", "@)]
    } else {
        Seq::empty()
    }) + seq![Seq::<char>::empty()]
}

pub open spec fn entity_lines(a: WizardAnswers) -> Seq<Seq<char>> {
    if a.entities@.len() > 0 {
        seq!["ENTITY "@ + join(strs_of(a.entities@), ", "@), Seq::<char>::empty()]
    } else {
        Seq::empty()
    }
}

pub open spec fn never_lines_of(never: Seq<Seq<char>>) -> Seq<Seq<char>> {
    never.map_values(|n: Seq<char>| "    NEVER "@ + n)
}

pub open spec fn layer_lines(l: LayerDef) -> Seq<Seq<char>> {
    seq!["  "@ + l.name@] + (if l.calls@.len() > 0 {
        seq!["    CALLS "@ + join(strs_of(l.calls@), ", "@)]
    } else {
        Seq::empty()
    }) + never_lines_of(strs_of(l.never@))
}

pub open spec fn all_layer_lines(ls: Seq<LayerDef>) -> Seq<Seq<char>> {
    ls.map_values(|l: LayerDef| layer_lines(l)).flatten_alt()
}

pub open spec fn layers_lines(a: WizardAnswers) -> Seq<Seq<char>> {
    if a.layers@.len() > 0 {
        seq!["LAYERS"@] + all_layer_lines(a.layers@) + seq![Seq::<char>::empty()]
    } else {
        Seq::empty()
    }
}

pub open spec fn secret_lines_of(secrets: Seq<Seq<char>>) -> Seq<Seq<char>> {
    secrets.map_values(|x: Seq<char>| "  "@ + x)
}

pub open spec fn secrets_lines(a: WizardAnswers) -> Seq<Seq<char>> {
    if a.secrets@.len() > 0 {
        seq!["SECRETS"@] + secret_lines_of(strs_of(a.secrets@)) + seq![Seq::<char>::empty()]
    } else {
        Seq::empty()
    }
}

/// The lines of the spec file that the wizard writes.
pub open spec fn spec_lines(a: WizardAnswers) -> Seq<Seq<char>> {
    project_lines(a) + entity_lines(a) + layers_lines(a) + secrets_lines(a)
}

proof fn lemma_text_of_one(l: Seq<char>)
    ensures
        text_of(seq![l]) == l + seq!['\n'],
{
    lemma_text_of_push(Seq::empty(), l);
    assert(Seq::<Seq<char>>::empty().push(l) =~= seq![l]);
    assert(text_of(Seq::<Seq<char>>::empty()) =~= Seq::<char>::empty());
}

/// Lines that all start with the same prefix, each followed by a newline.
proof fn lemma_prefixed_text(xs: Seq<Seq<char>>, p: Seq<char>)
    ensures
        xs.map_values(|x: Seq<char>| p + x + "\n"@).flatten_alt() == text_of(
            xs.map_values(|x: Seq<char>| p + x),
        ),
{
    reveal_strlit("\n");
    assert("\n"@ =~= seq!['\n']);
    assert(xs.map_values(|x: Seq<char>| p + x + "\n"@) =~= xs.map_values(|x: Seq<char>| p + x).map_values(
        |l: Seq<char>| l + seq!['\n'],
    ));
}

proof fn lemma_layer_text(l: LayerDef)
    ensures
        layer_text(l) == text_of(layer_lines(l)),
{
    reveal_strlit("\n");
    let first = seq!["  "@ + l.name@];
    let calls: Seq<Seq<char>> = if l.calls@.len() > 0 {
        seq!["    CALLS "@ + join(strs_of(l.calls@), ", "@)]
    } else {
        Seq::empty()
    };
    let nev = never_lines_of(strs_of(l.never@));
    lemma_text_of_concat(first + calls, nev);
    lemma_text_of_concat(first, calls);
    lemma_text_of_one("  "@ + l.name@);
    if l.calls@.len() > 0 {
        lemma_text_of_one("    CALLS "@ + join(strs_of(l.calls@), ", "@));
    } else {
        assert(text_of(calls) =~= Seq::<char>::empty());
    }
    lemma_prefixed_text(strs_of(l.never@), "    NEVER "@);
    assert(never_lines(strs_of(l.never@)) == text_of(nev));
    assert(layer_text(l) =~= text_of(layer_lines(l)));
}

proof fn lemma_layers_text(ls: Seq<LayerDef>)
    ensures
        ls.map_values(|l: LayerDef| layer_text(l)).flatten_alt() == text_of(all_layer_lines(ls)),
    decreases ls.len(),
{
    if ls.len() == 0 {
        assert(ls.map_values(|l: LayerDef| layer_text(l)).flatten_alt() =~= Seq::<char>::empty());
        assert(all_layer_lines(ls) =~= Seq::<Seq<char>>::empty());
        assert(text_of(Seq::<Seq<char>>::empty()) =~= Seq::<char>::empty());
    } else {
        let init = ls.drop_last();
        lemma_layers_text(init);
        assert(ls.map_values(|l: LayerDef| layer_text(l)).drop_last() =~= init.map_values(
            |l: LayerDef| layer_text(l),
        ));
        assert(ls.map_values(|l: LayerDef| layer_lines(l)).drop_last() =~= init.map_values(
            |l: LayerDef| layer_lines(l),
        ));
        lemma_layer_text(ls.last());
        lemma_text_of_concat(all_layer_lines(init), layer_lines(ls.last()));
    }
}

/// The wizard's text is the text of `spec_lines`.
proof fn lemma_rendered_lines(a: WizardAnswers)
    ensures
        rendered_spec(a) == text_of(spec_lines(a)),
{
    reveal_strlit("\n");
    reveal_strlit("\n\n");
    reveal_strlit("VERSION 1\n\n");
    reveal_strlit("VERSION 1");
    reveal_strlit("\"\n");
    reveal_strlit("\"");
    reveal_strlit("LAYERS\n");
    reveal_strlit("LAYERS");
    reveal_strlit("SECRETS\n");
    reveal_strlit("SECRETS");
    let e = Seq::<char>::empty();
    // project block
    let n = trim_quotes(trim(a.project_name@));
    let p0 = seq!["VERSION 1"@, e, "PROJECT \""@ + n + "\""@, "  LANG "@ + a.lang@, "  ARCH "@ + a.arch@];
    let st: Seq<Seq<char>> = if a.stack@.len() > 0 {
        seq!["  STACK "@ + join(strs_of(a.stack@), ", "@)]
    } else {
        Seq::empty()
    };
    lemma_text_of_concat(p0 + st, seq![e]);
    lemma_text_of_concat(p0, st);
    lemma_text_of_one(e);
    if a.stack@.len() > 0 {
        lemma_text_of_one("  STACK "@ + join(strs_of(a.stack@), ", "@));
    } else {
        assert(text_of(st) =~= Seq::<char>::empty());
    }
    assert(p0 =~= seq!["VERSION 1"@].push(e).push("PROJECT \""@ + n + "\""@).push("  LANG "@ + a.lang@).push(
        "  ARCH "@ + a.arch@,
    ));
    lemma_text_of_one("VERSION 1"@);
    lemma_text_of_push(seq!["VERSION 1"@], e);
    lemma_text_of_push(seq!["VERSION 1"@].push(e), "PROJECT \""@ + n + "\""@);
    lemma_text_of_push(seq!["VERSION 1"@].push(e).push("PROJECT \""@ + n + "\""@), "  LANG "@ + a.lang@);
    lemma_text_of_push(
        seq!["VERSION 1"@].push(e).push("PROJECT \""@ + n + "\""@).push("  LANG "@ + a.lang@),
        "  ARCH "@ + a.arch@,
    );
    assert(project_block(a) =~= text_of(project_lines(a)));
    // entity block
    if a.entities@.len() > 0 {
        let l = "ENTITY "@ + join(strs_of(a.entities@), ", "@);
        lemma_text_of_one(l);
        lemma_text_of_push(seq![l], e);
        assert(seq![l].push(e) =~= entity_lines(a));
        assert(entity_block(a) =~= text_of(entity_lines(a)));
    } else {
        assert(text_of(entity_lines(a)) =~= Seq::<char>::empty());
    }
    // layers block
    if a.layers@.len() > 0 {
        lemma_layers_text(a.layers@);
        lemma_text_of_one("LAYERS"@);
        lemma_text_of_concat(seq!["LAYERS"@], all_layer_lines(a.layers@));
        lemma_text_of_concat(seq!["LAYERS"@] + all_layer_lines(a.layers@), seq![e]);
        assert(layers_block(a) =~= text_of(layers_lines(a)));
    } else {
        assert(text_of(layers_lines(a)) =~= Seq::<char>::empty());
    }
    // secrets block
    if a.secrets@.len() > 0 {
        lemma_prefixed_text(strs_of(a.secrets@), "  "@);
        lemma_text_of_one("SECRETS"@);
        let sl = secret_lines_of(strs_of(a.secrets@));
        lemma_text_of_concat(seq!["SECRETS"@], sl);
        lemma_text_of_concat(seq!["SECRETS"@] + sl, seq![e]);
        assert(secret_lines(strs_of(a.secrets@)) == text_of(sl));
        assert(secrets_block(a) =~= text_of(secrets_lines(a)));
    } else {
        assert(text_of(secrets_lines(a)) =~= Seq::<char>::empty());
    }
    lemma_text_of_concat(project_lines(a), entity_lines(a));
    lemma_text_of_concat(project_lines(a) + entity_lines(a), layers_lines(a));
    lemma_text_of_concat(project_lines(a) + entity_lines(a) + layers_lines(a), secrets_lines(a));
}

// ---------------------------------------------------------------------------
// How the parser sees single lines
// ---------------------------------------------------------------------------

/// Starts and ends with a character other than whitespace.
pub open spec fn solid(x: Seq<char>) -> bool {
    x.len() > 0 && !is_ws(x[0]) && !is_ws(x.last())
}

proof fn lemma_no_comment(l: Seq<char>)
    requires
        !has_char(l, '#'),
    ensures
        strip_comment(l) == l,
{
    lemma_pos(l, '#');
    assert(l.take(l.len() as int) =~= l);
}

/// A top-level line: no indentation, no comment, nothing to trim.
proof fn lemma_top_line(l: Seq<char>)
    requires
        solid(l),
        !has_char(l, '#'),
    ensures
        tok(l) == l,
        ind(l) == 0,
        at_top(l),
{
    lemma_no_comment(l);
    lemma_trim_noop(l);
    assert(!indent_char()(l[0]));
    lemma_lead_unique(l, indent_char(), 0);
}

/// A line indented by the spaces `p`.
proof fn lemma_indented_line(p: Seq<char>, x: Seq<char>)
    requires
        p.len() > 0,
        forall|j: int| 0 <= j < p.len() ==> p[j] == ' ',
        solid(x),
        !has_char(x, '#'),
    ensures
        tok(p + x) == x,
        ind(p + x) == p.len(),
        !at_top(p + x),
        !is_blank(p + x),
{
    let l = p + x;
    lemma_pos(x, '#');
    assert forall|j: int| 0 <= j < l.len() implies crate::text::other_than('#')(#[trigger] l[j]) by {
        if j >= p.len() {
            assert(l[j] == x[j - p.len()]);
        }
    }
    lemma_lead_unique(l, crate::text::other_than('#'), l.len() as int);
    assert(l.take(l.len() as int) =~= l);
    assert(strip_comment(l) == l);
    assert(l[p.len() as int] == x[0]);
    assert forall|j: int| 0 <= j < p.len() implies indent_char()(#[trigger] l[j]) by {}
    lemma_lead_unique(l, indent_char(), p.len() as int);
    assert forall|j: int| 0 <= j < p.len() implies crate::text::ws()(#[trigger] l[j]) by {}
    lemma_lead_unique(l, crate::text::ws(), p.len() as int);
    assert(l.skip(p.len() as int) =~= x);
    lemma_lead_unique(x, crate::text::ws(), 0);
    assert(x.skip(0) =~= x);
    lemma_trim_noop(x);
}

/// A line that starts with a space is never top-level.
proof fn lemma_spaced_not_top(x: Seq<char>)
    ensures
        !at_top(" "@ + x),
{
    reveal_strlit(" ");
    let l = " "@ + x;
    assert(l[0] == ' ');
    lemma_pos(l, '#');
    let sc = strip_comment(l);
    assert(pos(l, '#') > 0);
    assert(sc[0] == ' ');
    lemma_lead(sc, indent_char());
    assert(indent_len(sc) > 0);
}

proof fn lemma_empty_line()
    ensures
        is_blank(Seq::<char>::empty()),
        !at_top(Seq::<char>::empty()),
{
    let e = Seq::<char>::empty();
    lemma_no_comment(e);
    lemma_trim_noop(e);
}

// ---------------------------------------------------------------------------
// Sections
// ---------------------------------------------------------------------------

/// Lines `i..e` are none of them top-level, and `e` ends the list or is top-level.
pub open spec fn section_from(ls: Seq<Seq<char>>, i: int, e: int) -> bool {
    &&& 0 <= i <= e <= ls.len()
    &&& forall|j: int| i <= j < e ==> !at_top(#[trigger] ls[j])
    &&& (e == ls.len() || at_top(ls[e]))
}

proof fn lemma_section_end_at(ls: Seq<Seq<char>>, i: int, e: int)
    requires
        section_from(ls, i, e),
    ensures
        section_end(ls, i) == e,
    decreases e - i,
{
    if i < e {
        assert(!at_top(ls[i]));
        lemma_section_end_at(ls, i + 1, e);
    }
}

proof fn lemma_parse_skip(ls: Seq<Seq<char>>, i: int, e: int, s: EnthSpecView)
    requires
        section_from(ls, i, e),
    ensures
        parse_lines(ls, i, s) == parse_lines(ls, e, s),
    decreases e - i,
{
    if i < e {
        assert(!at_top(ls[i]));
        lemma_parse_skip(ls, i + 1, e, s);
    }
}

/// What the layers section leaves alone.
proof fn lemma_layers_frame(ls: Seq<Seq<char>>, i: int, cur: Option<Seq<char>>, s: EnthSpecView)
    ensures
        layers_section(ls, i, cur, s).version == s.version,
        layers_section(ls, i, cur, s).project == s.project,
        layers_section(ls, i, cur, s).entities == s.entities,
        layers_section(ls, i, cur, s).secrets == s.secrets,
    decreases ls.len() - i,
{
    if i < 0 || i >= ls.len() || at_top(ls[i]) {
    } else if is_blank(ls[i]) {
        lemma_layers_frame(ls, i + 1, cur, s);
    } else if ind(ls[i]) <= 2 {
        let name = tok(ls[i]);
        lemma_layers_frame(
            ls,
            i + 1,
            Some(name),
            EnthSpecView {
                layers_order: s.layers_order.push(name),
                layers: crate::parser::upsert_layer(s.layers, crate::parser::new_layer(name)),
                ..s
            },
        );
    } else {
        match cur {
            Some(c) => lemma_layers_frame(ls, i + 1, cur, crate::parser::layer_line(s, c, tok(ls[i]))),
            None => lemma_layers_frame(ls, i + 1, cur, s),
        }
    }
}

/// The names that the layer lines declare: the nonblank lines indented by at most two.
pub open spec fn layer_names(ls: Seq<Seq<char>>) -> Seq<Seq<char>>
    decreases ls.len(),
{
    if ls.len() == 0 {
        Seq::empty()
    } else {
        layer_names(ls.drop_last()) + (if !is_blank(ls.last()) && ind(ls.last()) <= 2 {
            seq![tok(ls.last())]
        } else {
            Seq::empty()
        })
    }
}

proof fn lemma_layer_names_concat(a: Seq<Seq<char>>, b: Seq<Seq<char>>)
    ensures
        layer_names(a + b) == layer_names(a) + layer_names(b),
    decreases b.len(),
{
    if b.len() == 0 {
        assert(a + b =~= a);
        assert(layer_names(a) + layer_names(b) =~= layer_names(a));
    } else {
        assert((a + b).drop_last() =~= a + b.drop_last());
        assert((a + b).last() == b.last());
        lemma_layer_names_concat(a, b.drop_last());
        let t = if !is_blank(b.last()) && ind(b.last()) <= 2 {
            seq![tok(b.last())]
        } else {
            Seq::<Seq<char>>::empty()
        };
        assert(layer_names(a) + layer_names(b.drop_last()) + t =~= layer_names(a) + (layer_names(
            b.drop_last(),
        ) + t));
    }
}

/// The layers section records, in order, the names its lines declare.
proof fn lemma_layers_order(ls: Seq<Seq<char>>, i: int, e: int, cur: Option<Seq<char>>, s: EnthSpecView)
    requires
        section_from(ls, i, e),
    ensures
        layers_section(ls, i, cur, s).layers_order == s.layers_order + layer_names(ls.subrange(i, e)),
    decreases e - i,
{
    if i == e {
        assert(layer_names(ls.subrange(i, e)) =~= Seq::<Seq<char>>::empty());
        assert(s.layers_order + Seq::<Seq<char>>::empty() =~= s.layers_order);
    } else {
        assert(!at_top(ls[i]));
        let l = ls[i];
        assert(ls.subrange(i, e) =~= seq![l] + ls.subrange(i + 1, e));
        lemma_layer_names_concat(seq![l], ls.subrange(i + 1, e));
        assert(seq![l].drop_last() =~= Seq::<Seq<char>>::empty());
        assert(layer_names(Seq::<Seq<char>>::empty()) =~= Seq::<Seq<char>>::empty());
        if is_blank(l) {
            lemma_layers_order(ls, i + 1, e, cur, s);
            assert(layer_names(seq![l]) =~= Seq::<Seq<char>>::empty());
        } else if ind(l) <= 2 {
            let name = tok(l);
            let s1 = EnthSpecView {
                layers_order: s.layers_order.push(name),
                layers: crate::parser::upsert_layer(s.layers, crate::parser::new_layer(name)),
                ..s
            };
            lemma_layers_order(ls, i + 1, e, Some(name), s1);
            assert(layer_names(seq![l]) =~= seq![name]);
            assert(s.layers_order.push(name) + layer_names(ls.subrange(i + 1, e)) =~= s.layers_order
                + (seq![name] + layer_names(ls.subrange(i + 1, e))));
        } else {
            assert(layer_names(seq![l]) =~= Seq::<Seq<char>>::empty());
            match cur {
                Some(c) => lemma_layers_order(ls, i + 1, e, cur, crate::parser::layer_line(s, c, tok(l))),
                None => lemma_layers_order(ls, i + 1, e, cur, s),
            }
        }
        assert(layer_names(seq![l]) + layer_names(ls.subrange(i + 1, e)) == layer_names(
            ls.subrange(i, e),
        ));
    }
}

/// A line indented by four spaces whose text starts with a letter.
proof fn lemma_deep_line(y: Seq<char>)
    requires
        y.len() > 0,
        y[0] != ' ' && y[0] != '\t' && y[0] != '#',
    ensures
        ind("    "@ + y) == 4,
{
    reveal_strlit("    ");
    let l = "    "@ + y;
    assert(l[4] == y[0]);
    lemma_pos(l, '#');
    assert(pos(l, '#') > 4) by {
        if pos(l, '#') <= 4 {
            assert(l[pos(l, '#') as int] == '#');
        }
    }
    let sc = strip_comment(l);
    assert forall|j: int| 0 <= j < 4 implies indent_char()(#[trigger] sc[j]) by {
        assert(sc[j] == l[j]);
    }
    assert(sc[4] == l[4]);
    lemma_lead_unique(sc, indent_char(), 4);
}

proof fn lemma_layer_names_none(ls: Seq<Seq<char>>)
    requires
        forall|i: int| 0 <= i < ls.len() ==> ind(#[trigger] ls[i]) > 2,
    ensures
        layer_names(ls) == Seq::<Seq<char>>::empty(),
    decreases ls.len(),
{
    if ls.len() > 0 {
        assert(ind(ls[ls.len() - 1]) > 2);
        let init = ls.drop_last();
        assert forall|i: int| 0 <= i < init.len() implies ind(#[trigger] init[i]) > 2 by {
            assert(init[i] == ls[i]);
        }
        lemma_layer_names_none(init);
        assert(layer_names(ls) =~= Seq::<Seq<char>>::empty());
    }
}

/// A layer's lines declare its name, and only its name.
proof fn lemma_layer_names_of_layer(l: LayerDef)
    requires
        solid(l.name@),
        !has_char(l.name@, '#'),
    ensures
        layer_names(layer_lines(l)) == seq![l.name@],
{
    reveal_strlit("  ");
    reveal_strlit("    CALLS ");
    reveal_strlit("    NEVER ");
    reveal_strlit("    ");
    reveal_strlit("CALLS ");
    reveal_strlit("NEVER ");
    let first = seq!["  "@ + l.name@];
    let calls: Seq<Seq<char>> = if l.calls@.len() > 0 {
        seq!["    CALLS "@ + join(strs_of(l.calls@), ", "@)]
    } else {
        Seq::empty()
    };
    let nev = never_lines_of(strs_of(l.never@));
    lemma_indented_line("  "@, l.name@);
    assert(first.drop_last() =~= Seq::<Seq<char>>::empty());
    assert(layer_names(Seq::<Seq<char>>::empty()) =~= Seq::<Seq<char>>::empty());
    assert(layer_names(first) =~= seq![l.name@]);
    if l.calls@.len() > 0 {
        let y = "CALLS "@ + join(strs_of(l.calls@), ", "@);
        assert("    CALLS "@ + join(strs_of(l.calls@), ", "@) =~= "    "@ + y);
        lemma_deep_line(y);
    }
    assert forall|i: int| 0 <= i < calls.len() implies ind(#[trigger] calls[i]) > 2 by {}
    lemma_layer_names_none(calls);
    assert forall|i: int| 0 <= i < nev.len() implies ind(#[trigger] nev[i]) > 2 by {
        let y = "NEVER "@ + strs_of(l.never@)[i];
        assert(nev[i] =~= "    "@ + y);
        lemma_deep_line(y);
    }
    lemma_layer_names_none(nev);
    lemma_layer_names_concat(first, calls);
    lemma_layer_names_concat(first + calls, nev);
    assert(seq![l.name@] + Seq::<Seq<char>>::empty() + Seq::<Seq<char>>::empty() =~= seq![l.name@]);
}

/// Layers whose names are trimmed, nonempty and free of comment signs.
pub open spec fn names_readable(ls: Seq<LayerDef>) -> bool {
    forall|i: int| 0 <= i < ls.len() ==> solid((#[trigger] ls[i]).name@) && !has_char(ls[i].name@, '#')
}

pub open spec fn layer_name_list(ls: Seq<LayerDef>) -> Seq<Seq<char>> {
    ls.map_values(|l: LayerDef| l.name@)
}

proof fn lemma_all_layer_names(ls: Seq<LayerDef>)
    requires
        names_readable(ls),
    ensures
        layer_names(all_layer_lines(ls)) == layer_name_list(ls),
    decreases ls.len(),
{
    if ls.len() == 0 {
        assert(all_layer_lines(ls) =~= Seq::<Seq<char>>::empty());
        assert(layer_name_list(ls) =~= Seq::<Seq<char>>::empty());
    } else {
        let init = ls.drop_last();
        assert forall|i: int| 0 <= i < init.len() implies solid((#[trigger] init[i]).name@)
            && !has_char(init[i].name@, '#') by {
            assert(init[i] == ls[i]);
        }
        lemma_all_layer_names(init);
        assert(ls.map_values(|l: LayerDef| layer_lines(l)).drop_last() =~= init.map_values(
            |l: LayerDef| layer_lines(l),
        ));
        assert(solid(ls[ls.len() - 1].name@));
        lemma_layer_names_of_layer(ls.last());
        lemma_layer_names_concat(all_layer_lines(init), layer_lines(ls.last()));
        assert(layer_name_list(ls) =~= layer_name_list(init).push(ls.last().name@));
    }
}

/// A secret name as the parser reads it back: one word, no comment sign.
pub open spec fn secret_item(x: Seq<char>) -> bool {
    x.len() > 0 && no_ws(x) && !has_char(x, '#')
}

/// The `SECRETS` lines, each a name indented by two spaces, then one blank last line.
proof fn lemma_first_words_secrets(ls: Seq<Seq<char>>, i: int, xs: Seq<Seq<char>>, acc: Seq<Seq<char>>)
    requires
        0 <= i,
        ls.len() == i + xs.len() + 1,
        ls.last() == Seq::<char>::empty(),
        forall|j: int| 0 <= j < xs.len() ==> ls[i + j] == "  "@ + #[trigger] xs[j],
        forall|j: int| 0 <= j < xs.len() ==> secret_item(#[trigger] xs[j]),
    ensures
        first_words(ls, i, acc) == acc + xs,
    decreases xs.len(),
{
    reveal_strlit("  ");
    if xs.len() == 0 {
        lemma_empty_line();
        assert(ls[i] == ls.last());
        assert(first_words(ls, i + 1, acc) == acc);
        assert(acc + xs =~= acc);
    } else {
        let x = xs[0];
        assert(ls[i + 0] == "  "@ + xs[0]);
        assert(secret_item(xs[0]));
        assert(!is_ws(x[0]) && !is_ws(x.last()));
        lemma_indented_line("  "@, x);
        lemma_words_single(x);
        let rest = xs.drop_first();
        assert forall|j: int| 0 <= j < rest.len() implies ls[(i + 1) + j] == "  "@ + #[trigger] rest[j] by {
            assert(rest[j] == xs[j + 1]);
            assert(ls[i + (j + 1)] == "  "@ + xs[j + 1]);
        }
        assert forall|j: int| 0 <= j < rest.len() implies secret_item(#[trigger] rest[j]) by {
            assert(rest[j] == xs[j + 1]);
        }
        lemma_first_words_secrets(ls, i + 1, rest, acc.push(x));
        assert(acc.push(x) + rest =~= acc + xs);
    }
}

// ---------------------------------------------------------------------------
// The PROJECT block
// ---------------------------------------------------------------------------

proof fn lemma_assoc_get_insert<V>(m: Seq<(Seq<char>, V)>, k: Seq<char>, v: V, k2: Seq<char>)
    ensures
        assoc_get(assoc_insert(m, k, v), k2) == if k2 == k {
            Some(v)
        } else {
            assoc_get(m, k2)
        },
{
    let p = keyed::<V>(k);
    let q = keyed::<V>(k2);
    lemma_first_with_props(m, p);
    lemma_first_with_props(m, q);
    let m2 = assoc_insert(m, k, v);
    if k2 == k {
        match first_with(m, p) {
            Some(i) => {
                assert(is_first_with(m2, p, i));
                lemma_first_with_some(m2, p, i);
            },
            None => {
                assert(is_first_with(m2, p, m.len() as int));
                lemma_first_with_some(m2, p, m.len() as int);
            },
        }
    } else {
        match first_with(m, q) {
            Some(j) => {
                assert forall|l: int| 0 <= l < j implies !q(#[trigger] m2[l]) by {
                    assert(!q(m[l]));
                }
                assert(is_first_with(m2, q, j));
                lemma_first_with_some(m2, q, j);
            },
            None => {
                assert forall|l: int| 0 <= l < m2.len() implies !q(#[trigger] m2[l]) by {
                    if l < m.len() {
                        assert(!q(m[l]));
                    }
                }
                lemma_first_with_none(m2, q);
            },
        }
    }
}

/// `key value` splits at the space after the key.
proof fn lemma_key_value(key: Seq<char>, v: Seq<char>)
    requires
        key.len() > 0,
        no_ws(key),
        solid(v),
    ensures
        split_ws_once(key + " "@ + v) == Some((key, v)),
        trim(key) == key,
        trim(v) == v,
{
    reveal_strlit(" ");
    let t = key + " "@ + v;
    assert forall|j: int| 0 <= j < key.len() implies non_ws()(#[trigger] t[j]) by {
        assert(t[j] == key[j]);
    }
    assert(t[key.len() as int] == ' ');
    lemma_lead_unique(t, non_ws(), key.len() as int);
    assert(t.take(key.len() as int) =~= key);
    assert(t.skip(key.len() as int + 1) =~= v);
    lemma_trim_noop(key);
    lemma_trim_noop(v);
}

/// The value that the parser stores for `key value` in `PROJECT`.
pub open spec fn project_value(key: Seq<char>, v: Seq<char>) -> ProjectValueView {
    let w = trim(trim_quotes(v));
    if key == "STACK"@ {
        ProjectValueView::List(comma_list(w))
    } else {
        ProjectValueView::Str(w)
    }
}

/// One `  key value` line of the `PROJECT` block.
proof fn lemma_project_line(
    ls: Seq<Seq<char>>,
    i: int,
    key: Seq<char>,
    v: Seq<char>,
    deps: Seq<(Seq<char>, Seq<Seq<char>>)>,
    s: EnthSpecView,
)
    requires
        0 <= i < ls.len(),
        ls[i] == "  "@ + key + " "@ + v,
        key.len() > 0,
        no_ws(key),
        !has_char(key, '#'),
        solid(v),
        !has_char(v, '#'),
    ensures
        project_section(ls, i, false, deps, s) == project_section(
            ls,
            i + 1,
            false,
            deps,
            EnthSpecView { project: assoc_insert(s.project, key, project_value(key, v)), ..s },
        ),
{
    reveal_strlit("  ");
    reveal_strlit(" ");
    reveal_strlit("DEPS");
    let x = key + " "@ + v;
    assert(ls[i] == "  "@ + x);
    assert(x[0] == key[0]);
    assert(x.last() == v.last());
    lemma_pos(key, '#');
    lemma_pos(v, '#');
    assert forall|j: int| 0 <= j < x.len() implies crate::text::other_than('#')(#[trigger] x[j]) by {
        if j < key.len() {
            assert(x[j] == key[j]);
        } else if j > key.len() {
            assert(x[j] == v[j - key.len() - 1]);
        }
    }
    lemma_lead_unique(x, crate::text::other_than('#'), x.len() as int);
    lemma_indented_line("  "@, x);
    lemma_key_value(key, v);
    assert(x != "DEPS"@) by {
        if x == "DEPS"@ {
            assert(x.len() == 4);
            assert(x[key.len() as int] == ' ');
        }
    }
    assert(project_entry(s, x) == EnthSpecView {
        project: assoc_insert(s.project, key, project_value(key, v)),
        ..s
    });
}

// ---------------------------------------------------------------------------
// Characters of the lines
// ---------------------------------------------------------------------------

/// Neither a newline nor a carriage return in `x`.
pub open spec fn one_line(x: Seq<char>) -> bool {
    forall|j: int| 0 <= j < x.len() ==> #[trigger] x[j] != '\n' && x[j] != '\r'
}

proof fn lemma_no_char_concat(x: Seq<char>, y: Seq<char>, c: char)
    requires
        !has_char(x, c),
        !has_char(y, c),
    ensures
        !has_char(x + y, c),
{
    lemma_pos(x, c);
    lemma_pos(y, c);
    let t = x + y;
    assert forall|j: int| 0 <= j < t.len() implies crate::text::other_than(c)(#[trigger] t[j]) by {
        if j < x.len() {
            assert(t[j] == x[j]);
        } else {
            assert(t[j] == y[j - x.len()]);
        }
    }
    lemma_lead_unique(t, crate::text::other_than(c), t.len() as int);
}

proof fn lemma_no_char_lit(x: Seq<char>, c: char)
    requires
        forall|j: int| 0 <= j < x.len() ==> #[trigger] x[j] != c,
    ensures
        !has_char(x, c),
{
    lemma_lead_unique(x, crate::text::other_than(c), x.len() as int);
}

proof fn lemma_one_line_concat(x: Seq<char>, y: Seq<char>)
    requires
        one_line(x),
        one_line(y),
    ensures
        one_line(x + y),
{
    assert forall|j: int| 0 <= j < (x + y).len() implies #[trigger] (x + y)[j] != '\n' && (x
        + y)[j] != '\r' by {
        if j < x.len() {
            assert((x + y)[j] == x[j]);
        } else {
            assert((x + y)[j] == y[j - x.len()]);
        }
    }
}

/// A list item that reads back as itself.
pub open spec fn list_item(x: Seq<char>) -> bool {
    solid(x) && !has_char(x, ',') && !has_char(x, '#') && one_line(x)
}

/// What joining list items with `", "` gives: a line without comment sign that
/// starts with the first item and ends with the last.
proof fn lemma_join_items(xs: Seq<Seq<char>>)
    requires
        xs.len() > 0,
        forall|i: int| 0 <= i < xs.len() ==> list_item(#[trigger] xs[i]),
    ensures
        join(xs, ", "@).len() > 0,
        join(xs, ", "@)[0] == xs[0][0],
        join(xs, ", "@).last() == xs.last().last(),
        one_line(join(xs, ", "@)),
        !has_char(join(xs, ", "@), '#'),
    decreases xs.len(),
{
    reveal_strlit(", ");
    assert(list_item(xs[xs.len() - 1]));
    assert(list_item(xs[0]));
    if xs.len() > 1 {
        let init = xs.drop_last();
        assert forall|i: int| 0 <= i < init.len() implies list_item(#[trigger] init[i]) by {
            assert(init[i] == xs[i]);
        }
        lemma_join_items(init);
        let j0 = join(init, ", "@);
        assert(join(xs, ", "@) == j0 + ", "@ + xs.last());
        lemma_one_line_concat(j0, ", "@);
        lemma_one_line_concat(j0 + ", "@, xs.last());
        lemma_no_char_lit(", "@, '#');
        lemma_no_char_concat(j0, ", "@, '#');
        lemma_no_char_concat(j0 + ", "@, xs.last(), '#');
        assert(init[0] == xs[0]);
    }
}

proof fn lemma_strs_items(v: Seq<String>)
    requires
        forall|i: int| 0 <= i < v.len() ==> list_item(#[trigger] v[i]@),
    ensures
        forall|i: int| 0 <= i < strs_of(v).len() ==> list_item(#[trigger] strs_of(v)[i]),
{
    assert forall|i: int| 0 <= i < strs_of(v).len() implies list_item(#[trigger] strs_of(v)[i]) by {
        assert(strs_of(v)[i] == v[i]@);
    }
}

proof fn lemma_join_one_line(xs: Seq<Seq<char>>)
    requires
        forall|i: int| 0 <= i < xs.len() ==> one_line(#[trigger] xs[i]),
    ensures
        one_line(join(xs, ", "@)),
    decreases xs.len(),
{
    reveal_strlit(", ");
    if xs.len() == 1 {
        assert(one_line(xs[0]));
    } else if xs.len() > 1 {
        let init = xs.drop_last();
        assert forall|i: int| 0 <= i < init.len() implies one_line(#[trigger] init[i]) by {
            assert(init[i] == xs[i]);
        }
        lemma_join_one_line(init);
        assert(one_line(xs[xs.len() - 1]));
        lemma_one_line_concat(join(init, ", "@), ", "@);
        lemma_one_line_concat(join(init, ", "@) + ", "@, xs.last());
    }
}

proof fn lemma_strs_one_line(v: Seq<String>)
    requires
        forall|i: int| 0 <= i < v.len() ==> one_line(#[trigger] v[i]@),
    ensures
        forall|i: int| 0 <= i < strs_of(v).len() ==> one_line(#[trigger] strs_of(v)[i]),
{
    assert forall|i: int| 0 <= i < strs_of(v).len() implies one_line(#[trigger] strs_of(v)[i]) by {
        assert(strs_of(v)[i] == v[i]@);
    }
}

// ---------------------------------------------------------------------------
// Answers that read back
// ---------------------------------------------------------------------------

/// The project name as the wizard writes it between quotes.
pub open spec fn written_name(a: WizardAnswers) -> Seq<char> {
    trim_quotes(trim(a.project_name@))
}

/// A `PROJECT` value that reads back as written.
pub open spec fn value_item(x: Seq<char>) -> bool {
    solid(x) && !has_char(x, '#') && one_line(x)
}

/// A layer whose lines stay lines.
pub open spec fn layer_readable(l: LayerDef) -> bool {
    &&& one_line(l.name@)
    &&& forall|i: int| 0 <= i < l.calls@.len() ==> one_line(#[trigger] l.calls@[i]@)
    &&& forall|i: int| 0 <= i < l.never@.len() ==> one_line(#[trigger] l.never@[i]@)
}

/// Answers whose every piece reads back from the written file as it was given.
pub open spec fn readable(a: WizardAnswers) -> bool {
    &&& one_line(written_name(a))
    &&& !has_char(written_name(a), '#')
    &&& value_item(a.lang@)
    &&& value_item(a.arch@)
    &&& forall|i: int| 0 <= i < a.stack@.len() ==> list_item(#[trigger] a.stack@[i]@)
    &&& (a.stack@.len() > 0 ==> a.stack@[0]@[0] != '"' && a.stack@.last()@.last() != '"')
    &&& forall|i: int| 0 <= i < a.entities@.len() ==> list_item(#[trigger] a.entities@[i]@)
    &&& forall|i: int| 0 <= i < a.layers@.len() ==> layer_readable(#[trigger] a.layers@[i])
    &&& forall|i: int| 0 <= i < a.secrets@.len() ==> secret_item(#[trigger] a.secrets@[i]@)
}

pub open spec fn all_plain(ls: Seq<Seq<char>>) -> bool {
    forall|i: int| 0 <= i < ls.len() ==> plain_line(#[trigger] ls[i])
}

/// Every line starts with a space.
pub open spec fn all_spaced(ls: Seq<Seq<char>>) -> bool {
    forall|i: int| 0 <= i < ls.len() ==> (#[trigger] ls[i]).len() > 0 && ls[i][0] == ' '
}

proof fn lemma_all_concat(a: Seq<Seq<char>>, b: Seq<Seq<char>>)
    ensures
        all_plain(a) && all_plain(b) ==> all_plain(a + b),
        all_spaced(a) && all_spaced(b) ==> all_spaced(a + b),
{
    assert forall|i: int| 0 <= i < (a + b).len() implies (#[trigger] (a + b)[i]) == if i < a.len() {
        a[i]
    } else {
        b[i - a.len()]
    } by {}
}

proof fn lemma_one_line_plain(x: Seq<char>)
    requires
        one_line(x),
    ensures
        plain_line(x),
{
    if x.len() > 0 {
        assert(x.last() == x[x.len() - 1]);
    }
}

proof fn lemma_prefixed_line(p: Seq<char>, x: Seq<char>)
    requires
        p.len() > 0,
        p[0] == ' ',
        one_line(p),
        one_line(x),
    ensures
        plain_line(p + x),
        (p + x).len() > 0 && (p + x)[0] == ' ',
{
    lemma_one_line_concat(p, x);
    lemma_one_line_plain(p + x);
}

proof fn lemma_layer_lines_ok(l: LayerDef)
    requires
        layer_readable(l),
    ensures
        all_plain(layer_lines(l)),
        all_spaced(layer_lines(l)),
{
    reveal_strlit("  ");
    reveal_strlit("    CALLS ");
    reveal_strlit("    NEVER ");
    lemma_prefixed_line("  "@, l.name@);
    let first = seq!["  "@ + l.name@];
    let calls: Seq<Seq<char>> = if l.calls@.len() > 0 {
        seq!["    CALLS "@ + join(strs_of(l.calls@), ", "@)]
    } else {
        Seq::empty()
    };
    if l.calls@.len() > 0 {
        lemma_strs_one_line(l.calls@);
        lemma_join_one_line(strs_of(l.calls@));
        lemma_prefixed_line("    CALLS "@, join(strs_of(l.calls@), ", "@));
    }
    let nev = never_lines_of(strs_of(l.never@));
    lemma_strs_one_line(l.never@);
    assert forall|i: int| 0 <= i < nev.len() implies plain_line(#[trigger] nev[i]) && nev[i].len() > 0
        && nev[i][0] == ' ' by {
        lemma_prefixed_line("    NEVER "@, strs_of(l.never@)[i]);
    }
    lemma_all_concat(first, calls);
    lemma_all_concat(first + calls, nev);
}

proof fn lemma_all_layer_lines_ok(ls: Seq<LayerDef>)
    requires
        forall|i: int| 0 <= i < ls.len() ==> layer_readable(#[trigger] ls[i]),
    ensures
        all_plain(all_layer_lines(ls)),
        all_spaced(all_layer_lines(ls)),
    decreases ls.len(),
{
    if ls.len() > 0 {
        let init = ls.drop_last();
        assert forall|i: int| 0 <= i < init.len() implies layer_readable(#[trigger] init[i]) by {
            assert(init[i] == ls[i]);
        }
        lemma_all_layer_lines_ok(init);
        assert(ls.map_values(|l: LayerDef| layer_lines(l)).drop_last() =~= init.map_values(
            |l: LayerDef| layer_lines(l),
        ));
        assert(layer_readable(ls[ls.len() - 1]));
        lemma_layer_lines_ok(ls.last());
        lemma_all_concat(all_layer_lines(init), layer_lines(ls.last()));
    }
}

proof fn lemma_lit_line(x: Seq<char>)
    requires
        forall|j: int| 0 <= j < x.len() ==> #[trigger] x[j] != '\n' && x[j] != '\r',
    ensures
        one_line(x),
{
}

proof fn lemma_spec_lines_plain(a: WizardAnswers)
    requires
        readable(a),
    ensures
        all_plain(spec_lines(a)),
{
    reveal_strlit("VERSION 1");
    reveal_strlit("PROJECT \"");
    reveal_strlit("\"");
    reveal_strlit("  LANG ");
    reveal_strlit("  ARCH ");
    reveal_strlit("  STACK ");
    reveal_strlit("ENTITY ");
    reveal_strlit("LAYERS");
    reveal_strlit("SECRETS");
    reveal_strlit("  ");
    let e = Seq::<char>::empty();
    let n = written_name(a);
    lemma_lit_line("VERSION 1"@);
    lemma_lit_line("PROJECT \""@);
    lemma_lit_line("\""@);
    lemma_lit_line("  LANG "@);
    lemma_lit_line("  ARCH "@);
    lemma_lit_line("LAYERS"@);
    lemma_lit_line("SECRETS"@);
    lemma_one_line_plain("VERSION 1"@);
    lemma_one_line_plain(e);
    lemma_one_line_concat("PROJECT \""@, n);
    lemma_one_line_concat("PROJECT \""@ + n, "\""@);
    lemma_one_line_plain("PROJECT \""@ + n + "\""@);
    lemma_prefixed_line("  LANG "@, a.lang@);
    lemma_prefixed_line("  ARCH "@, a.arch@);
    let p0 = seq!["VERSION 1"@, e, "PROJECT \""@ + n + "\""@, "  LANG "@ + a.lang@, "  ARCH "@ + a.arch@];
    assert(all_plain(p0));
    let st: Seq<Seq<char>> = if a.stack@.len() > 0 {
        seq!["  STACK "@ + join(strs_of(a.stack@), ", "@)]
    } else {
        Seq::empty()
    };
    if a.stack@.len() > 0 {
        lemma_lit_line("  STACK "@);
        lemma_strs_items(a.stack@);
        assert forall|i: int| 0 <= i < strs_of(a.stack@).len() implies one_line(
            #[trigger] strs_of(a.stack@)[i],
        ) by {
            assert(list_item(strs_of(a.stack@)[i]));
        }
        lemma_join_one_line(strs_of(a.stack@));
        lemma_prefixed_line("  STACK "@, join(strs_of(a.stack@), ", "@));
    }
    assert(all_plain(st));
    assert(all_plain(seq![e]));
    lemma_all_concat(p0, st);
    lemma_all_concat(p0 + st, seq![e]);
    assert(all_plain(project_lines(a)));
    if a.entities@.len() > 0 {
        lemma_lit_line("ENTITY "@);
        lemma_strs_items(a.entities@);
        assert forall|i: int| 0 <= i < strs_of(a.entities@).len() implies one_line(
            #[trigger] strs_of(a.entities@)[i],
        ) by {
            assert(list_item(strs_of(a.entities@)[i]));
        }
        lemma_join_one_line(strs_of(a.entities@));
        lemma_one_line_concat("ENTITY "@, join(strs_of(a.entities@), ", "@));
        lemma_one_line_plain("ENTITY "@ + join(strs_of(a.entities@), ", "@));
    }
    assert(all_plain(entity_lines(a)));
    if a.layers@.len() > 0 {
        lemma_all_layer_lines_ok(a.layers@);
        lemma_one_line_plain("LAYERS"@);
        lemma_all_concat(seq!["LAYERS"@], all_layer_lines(a.layers@));
        lemma_all_concat(seq!["LAYERS"@] + all_layer_lines(a.layers@), seq![e]);
    }
    assert(all_plain(layers_lines(a)));
    if a.secrets@.len() > 0 {
        let sl = secret_lines_of(strs_of(a.secrets@));
        assert forall|i: int| 0 <= i < sl.len() implies plain_line(#[trigger] sl[i]) by {
            assert(secret_item(a.secrets@[i]@));
            let x = strs_of(a.secrets@)[i];
            assert(one_line(x));
            lemma_prefixed_line("  "@, x);
        }
        lemma_one_line_plain("SECRETS"@);
        lemma_all_concat(seq!["SECRETS"@], sl);
        lemma_all_concat(seq!["SECRETS"@] + sl, seq![e]);
    }
    assert(all_plain(secrets_lines(a)));
    lemma_all_concat(project_lines(a), entity_lines(a));
    lemma_all_concat(project_lines(a) + entity_lines(a), layers_lines(a));
    lemma_all_concat(project_lines(a) + entity_lines(a) + layers_lines(a), secrets_lines(a));
}

// ---------------------------------------------------------------------------
// Reading the file, block by block
// ---------------------------------------------------------------------------

proof fn lemma_step_version(ls: Seq<Seq<char>>, s: EnthSpecView)
    requires
        ls.len() > 2,
        ls[0] == "VERSION 1"@,
        ls[1] == Seq::<char>::empty(),
        at_top(ls[2]),
    ensures
        parse_lines(ls, 0, s) == parse_lines(ls, 2, (EnthSpecView { version: "1"@, ..s })),
{
    reveal_strlit("VERSION 1");
    reveal_strlit("VERSION ");
    reveal_strlit("1");
    let t = "VERSION 1"@;
    lemma_no_char_lit(t, '#');
    lemma_top_line(t);
    assert(t.take(8) =~= "VERSION "@);
    assert(after(t, "VERSION "@) =~= "1"@);
    lemma_trim_noop("1"@);
    lemma_empty_line();
    let s1 = EnthSpecView { version: "1"@, ..s };
    assert(top_step(ls, 0, s) == (1int, s1));
    assert(section_from(ls, 1, 2));
    lemma_parse_skip(ls, 1, 2, s1);
}

/// The `PROJECT` entries that the wizard's file yields.
pub open spec fn written_project(a: WizardAnswers) -> Seq<(Seq<char>, ProjectValueView)> {
    let p = assoc_insert(
        assoc_insert(
            assoc_insert(
                Seq::empty(),
                "NAME"@,
                ProjectValueView::Str("\""@ + written_name(a) + "\""@),
            ),
            "LANG"@,
            project_value("LANG"@, a.lang@),
        ),
        "ARCH"@,
        project_value("ARCH"@, a.arch@),
    );
    if a.stack@.len() > 0 {
        assoc_insert(p, "STACK"@, project_value("STACK"@, join(strs_of(a.stack@), ", "@)))
    } else {
        p
    }
}

proof fn lemma_step_project(a: WizardAnswers, ls: Seq<Seq<char>>, s: EnthSpecView)
    requires
        readable(a),
        project_lines(a).len() <= ls.len(),
        forall|j: int| 0 <= j < project_lines(a).len() ==> ls[j] == #[trigger] project_lines(a)[j],
        project_lines(a).len() == ls.len() || at_top(ls[project_lines(a).len() as int]),
        s.project == Seq::<(Seq<char>, ProjectValueView)>::empty(),
    ensures
        at_top(ls[2]),
        parse_lines(ls, 2, s) == parse_lines(
            ls,
            project_lines(a).len() as int,
            (EnthSpecView { project: written_project(a), ..s }),
        ),
{
    reveal_strlit("PROJECT \"");
    reveal_strlit("PROJECT ");
    reveal_strlit("PROJECT");
    reveal_strlit("VERSION ");
    reveal_strlit("\"");
    reveal_strlit("  LANG ");
    reveal_strlit("  ARCH ");
    reveal_strlit("  STACK ");
    reveal_strlit("  ");
    reveal_strlit(" ");
    reveal_strlit("LANG");
    reveal_strlit("ARCH");
    reveal_strlit("STACK");
    reveal_strlit("NAME");
    let pl = project_lines(a);
    let pe = pl.len() as int;
    let n = written_name(a);
    let e = Seq::<char>::empty();
    // the header line
    let t = "PROJECT \""@ + n + "\""@;
    assert(ls[2] == pl[2]);
    assert(pl[2] == t);
    assert(t[0] == 'P');
    assert(t.last() == '"');
    lemma_no_char_lit("PROJECT \""@, '#');
    lemma_no_char_lit("\""@, '#');
    lemma_no_char_concat("PROJECT \""@, n, '#');
    lemma_no_char_concat("PROJECT \""@ + n, "\""@, '#');
    lemma_top_line(t);
    assert(!crate::text::starts_with(t, "VERSION "@)) by {
        if crate::text::starts_with(t, "VERSION "@) {
            assert(t.take(8)[0] == t[0]);
        }
    }
    assert(t.take(8) =~= "PROJECT "@);
    let q = "\""@ + n + "\""@;
    assert(after(t, "PROJECT "@) =~= q);
    assert(q[0] == '"' && q.last() == '"');
    lemma_trim_noop(q);
    let s1 = project_header(s, t);
    assert(s1 == EnthSpecView {
        project: assoc_insert(s.project, "NAME"@, ProjectValueView::Str(q)),
        ..s
    });
    // the block's other lines are indented or blank
    lemma_empty_line();
    assert forall|j: int| 3 <= j < pe implies !at_top(#[trigger] ls[j]) by {
        assert(ls[j] == pl[j]);
        if j < pe - 1 {
            assert(pl[j][0] == ' ');
            assert(pl[j] =~= " "@ + pl[j].skip(1));
            lemma_spaced_not_top(pl[j].skip(1));
        } else {
            assert(pl[j] == e);
        }
    }
    assert(section_from(ls, 3, pe));
    lemma_section_end_at(ls, 3, pe);
    assert(top_step(ls, 2, s).0 == pe);
    assert(top_step(ls, 2, s).1 == project_section(ls, 3, false, Seq::empty(), s1));
    // LANG and ARCH
    assert(ls[3] == "  "@ + "LANG"@ + " "@ + a.lang@) by {
        assert(ls[3] == pl[3]);
        assert("  LANG "@ + a.lang@ =~= "  "@ + "LANG"@ + " "@ + a.lang@);
    }
    assert(ls[4] == "  "@ + "ARCH"@ + " "@ + a.arch@) by {
        assert(ls[4] == pl[4]);
        assert("  ARCH "@ + a.arch@ =~= "  "@ + "ARCH"@ + " "@ + a.arch@);
    }
    lemma_no_char_lit("LANG"@, '#');
    lemma_no_char_lit("ARCH"@, '#');
    lemma_no_char_lit("STACK"@, '#');
    let deps = Seq::<(Seq<char>, Seq<Seq<char>>)>::empty();
    lemma_project_line(ls, 3, "LANG"@, a.lang@, deps, s1);
    let s2 = EnthSpecView {
        project: assoc_insert(s1.project, "LANG"@, project_value("LANG"@, a.lang@)),
        ..s1
    };
    lemma_project_line(ls, 4, "ARCH"@, a.arch@, deps, s2);
    let s3 = EnthSpecView {
        project: assoc_insert(s2.project, "ARCH"@, project_value("ARCH"@, a.arch@)),
        ..s2
    };
    let s4 = EnthSpecView { project: written_project(a), ..s };
    if a.stack@.len() > 0 {
        let j = join(strs_of(a.stack@), ", "@);
        lemma_strs_items(a.stack@);
        lemma_join_items(strs_of(a.stack@));
        assert(solid(j)) by {
            assert(j[0] == strs_of(a.stack@)[0][0]);
            assert(list_item(strs_of(a.stack@)[0]));
            assert(list_item(strs_of(a.stack@)[strs_of(a.stack@).len() - 1]));
            assert(j.last() == strs_of(a.stack@).last().last());
        }
        assert(ls[5] == "  "@ + "STACK"@ + " "@ + j) by {
            assert(ls[5] == pl[5]);
            assert("  STACK "@ + j =~= "  "@ + "STACK"@ + " "@ + j);
        }
        lemma_project_line(ls, 5, "STACK"@, j, deps, s3);
        assert(ls[6] == pl[6]);
        assert(project_section(ls, 6, false, deps, s4) == project_section(ls, 7, false, deps, s4));
        assert(project_section(ls, 7, false, deps, s4) == with_deps(s4, deps));
    } else {
        assert(ls[5] == pl[5]);
        assert(project_section(ls, 5, false, deps, s4) == project_section(ls, 6, false, deps, s4));
        assert(project_section(ls, 6, false, deps, s4) == with_deps(s4, deps));
    }
}

proof fn lemma_step_entity(ls: Seq<Seq<char>>, i: int, xs: Seq<Seq<char>>, s: EnthSpecView)
    requires
        0 <= i,
        i + 2 <= ls.len(),
        xs.len() > 0,
        forall|k: int| 0 <= k < xs.len() ==> list_item(#[trigger] xs[k]),
        ls[i] == "ENTITY "@ + join(xs, ", "@),
        ls[i + 1] == Seq::<char>::empty(),
        i + 2 == ls.len() || at_top(ls[i + 2]),
    ensures
        at_top(ls[i]),
        parse_lines(ls, i, s) == parse_lines(ls, i + 2, (EnthSpecView { entities: xs, ..s })),
{
    reveal_strlit("ENTITY ");
    reveal_strlit("VERSION ");
    reveal_strlit("PROJECT");
    reveal_strlit("PROJECT ");
    reveal_strlit("VOCABULARY");
    let j = join(xs, ", "@);
    let t = "ENTITY "@ + j;
    lemma_join_items(xs);
    assert(list_item(xs[xs.len() - 1]));
    assert(t[0] == 'E');
    assert(t.last() == j.last());
    lemma_no_char_lit("ENTITY "@, '#');
    lemma_no_char_concat("ENTITY "@, j, '#');
    lemma_top_line(t);
    assert(!crate::text::starts_with(t, "VERSION "@)) by {
        if crate::text::starts_with(t, "VERSION "@) {
            assert(t.take(8)[0] == t[0]);
        }
    }
    assert(!crate::text::starts_with(t, "PROJECT "@)) by {
        if crate::text::starts_with(t, "PROJECT "@) {
            assert(t.take(8)[0] == t[0]);
        }
    }
    assert(t != "PROJECT"@) by {
        if t == "PROJECT"@ {
            assert(t[0] == "PROJECT"@[0]);
        }
    }
    assert(t != "VOCABULARY"@) by {
        if t == "VOCABULARY"@ {
            assert(t[0] == "VOCABULARY"@[0]);
        }
    }
    assert(t.take(7) =~= "ENTITY "@);
    assert(after(t, "ENTITY "@) =~= j);
    assert forall|k: int| 0 <= k < xs.len() implies {
        let x = #[trigger] xs[k];
        &&& x.len() > 0
        &&& trim(x) == x
        &&& !has_char(x, ',')
    } by {
        assert(list_item(xs[k]));
        lemma_trim_noop(xs[k]);
    }
    crate::text::law_split_list_join(xs);
    let s1 = EnthSpecView { entities: xs, ..s };
    assert(top_step(ls, i, s) == (i + 1, s1));
    lemma_empty_line();
    assert(section_from(ls, i + 1, i + 2));
    lemma_parse_skip(ls, i + 1, i + 2, s1);
}

/// Why a keyword line opens its own section and no other.
proof fn lemma_keyword_line(t: Seq<char>)
    requires
        t == "LAYERS"@ || t == "SECRETS"@,
    ensures
        tok(t) == t,
        at_top(t),
        !crate::text::starts_with(t, "VERSION "@),
        t != "PROJECT"@,
        !crate::text::starts_with(t, "PROJECT "@),
        t != "VOCABULARY"@,
        !crate::text::starts_with(t, "ENTITY "@),
        t != "TRANSFORM"@,
        t != "CONTRACTS"@,
        t == "LAYERS"@ ==> t != "SECRETS"@,
{
    reveal_strlit("LAYERS");
    reveal_strlit("SECRETS");
    reveal_strlit("VERSION ");
    reveal_strlit("PROJECT");
    reveal_strlit("PROJECT ");
    reveal_strlit("VOCABULARY");
    reveal_strlit("ENTITY ");
    reveal_strlit("TRANSFORM");
    reveal_strlit("CONTRACTS");
    lemma_no_char_lit(t, '#');
    lemma_top_line(t);
    if t == "SECRETS"@ {
        assert(t.take(7)[0] != "ENTITY "@[0]);
        assert(t[0] != "PROJECT"@[0]);
    }
}

proof fn lemma_step_layers(ls: Seq<Seq<char>>, i: int, e: int, s: EnthSpecView) -> (s2: EnthSpecView)
    requires
        0 <= i,
        i + 2 <= e <= ls.len(),
        ls[i] == "LAYERS"@,
        forall|k: int| i + 1 <= k < e - 1 ==> (#[trigger] ls[k]).len() > 0 && ls[k][0] == ' ',
        ls[e - 1] == Seq::<char>::empty(),
        e == ls.len() || at_top(ls[e]),
    ensures
        parse_lines(ls, i, s) == parse_lines(ls, e, s2),
        s2.version == s.version,
        s2.project == s.project,
        s2.entities == s.entities,
        s2.secrets == s.secrets,
        s2.layers_order == s.layers_order + layer_names(ls.subrange(i + 1, e)),
        s2 == layers_section(ls, i + 1, None, s),
{
    reveal_strlit(" ");
    let t = ls[i];
    lemma_keyword_line(t);
    lemma_empty_line();
    assert forall|k: int| i + 1 <= k < e implies !at_top(#[trigger] ls[k]) by {
        if k < e - 1 {
            assert(ls[k] =~= " "@ + ls[k].skip(1));
            lemma_spaced_not_top(ls[k].skip(1));
        }
    }
    assert(section_from(ls, i + 1, e));
    lemma_section_end_at(ls, i + 1, e);
    let s2 = layers_section(ls, i + 1, None, s);
    assert(top_step(ls, i, s) == (e, s2));
    lemma_layers_frame(ls, i + 1, None, s);
    lemma_layers_order(ls, i + 1, e, None, s);
    s2
}

proof fn lemma_step_secrets(ls: Seq<Seq<char>>, i: int, xs: Seq<Seq<char>>, s: EnthSpecView)
    requires
        0 <= i,
        ls.len() == i + xs.len() + 2,
        ls[i] == "SECRETS"@,
        forall|k: int| 0 <= k < xs.len() ==> ls[i + 1 + k] == "  "@ + #[trigger] xs[k],
        forall|k: int| 0 <= k < xs.len() ==> secret_item(#[trigger] xs[k]),
        ls.last() == Seq::<char>::empty(),
    ensures
        parse_lines(ls, i, s) == (EnthSpecView { secrets: s.secrets + xs, ..s }),
{
    reveal_strlit("  ");
    reveal_strlit(" ");
    reveal_strlit("SECRETS");
    reveal_strlit("LAYERS");
    let t = ls[i];
    lemma_keyword_line(t);
    lemma_empty_line();
    assert forall|k: int| i + 1 <= k < ls.len() implies !at_top(#[trigger] ls[k]) by {
        if k < ls.len() - 1 {
            let x = xs[k - i - 1];
            assert(ls[i + 1 + (k - i - 1)] == "  "@ + x);
            assert(" "@ + (" "@ + x) =~= "  "@ + x);
            lemma_spaced_not_top(" "@ + x);
        } else {
            assert(ls[k] == ls.last());
        }
    }
    assert(section_from(ls, i + 1, ls.len() as int));
    lemma_section_end_at(ls, i + 1, ls.len() as int);
    assert forall|k: int| 0 <= k < xs.len() implies ls[(i + 1) + k] == "  "@ + #[trigger] xs[k] by {
        assert(ls[i + 1 + k] == "  "@ + xs[k]);
    }
    lemma_first_words_secrets(ls, i + 1, xs, s.secrets);
    let s2 = EnthSpecView { secrets: s.secrets + xs, ..s };
    assert(top_step(ls, i, s) == (ls.len() as int, s2));
    assert(parse_lines(ls, ls.len() as int, s2) == s2);
    assert(parse_lines(ls, i, s) == parse_lines(ls, ls.len() as int, s2));
}

// ---------------------------------------------------------------------------
// The law
// ---------------------------------------------------------------------------

/// The stack line reads back as the stack.
proof fn lemma_stack_value(a: WizardAnswers)
    requires
        readable(a),
        a.stack@.len() > 0,
    ensures
        project_value("STACK"@, join(strs_of(a.stack@), ", "@)) == ProjectValueView::List(
            strs_of(a.stack@),
        ),
{
    let xs = strs_of(a.stack@);
    let j = join(xs, ", "@);
    lemma_strs_items(a.stack@);
    lemma_join_items(xs);
    assert(list_item(xs[0]));
    assert(list_item(xs[xs.len() - 1]));
    assert(j[0] != '"');
    assert(j.last() != '"');
    crate::text::lemma_lead_unique(j, crate::text::quote(), 0);
    assert(j.skip(0) =~= j);
    crate::text::lemma_trail_unique(j, crate::text::quote(), 0);
    assert(j.take(j.len() as int) =~= j);
    assert(trim_quotes(j) == j);
    lemma_trim_noop(j);
    assert forall|k: int| 0 <= k < xs.len() implies {
        let x = #[trigger] xs[k];
        &&& x.len() > 0
        &&& trim(x) == x
        &&& !has_char(x, ',')
    } by {
        assert(list_item(xs[k]));
        lemma_trim_noop(xs[k]);
    }
    crate::text::law_split_list_join(xs);
}

proof fn lemma_read_back(a: WizardAnswers, source_file: Seq<char>)
    requires
        readable(a),
    ensures
        parse_spec(source_file, rendered_spec(a)).version == "1"@,
        parse_spec(source_file, rendered_spec(a)).project == written_project(a),
        parse_spec(source_file, rendered_spec(a)).entities == strs_of(a.entities@),
        parse_spec(source_file, rendered_spec(a)).secrets == strs_of(a.secrets@),
        names_readable(a.layers@) ==> parse_spec(source_file, rendered_spec(a)).layers_order
            == layer_name_list(a.layers@),
{
    reveal_strlit("LAYERS");
    reveal_strlit("SECRETS");
    reveal_strlit("NAME");
    reveal_strlit("LANG");
    reveal_strlit("ARCH");
    reveal_strlit("STACK");
    reveal_strlit("  ");
    let x = spec_lines(a);
    lemma_rendered_lines(a);
    lemma_spec_lines_plain(a);
    lemma_lines_text_of(x);
    assert(lines(rendered_spec(a)) == x);
    let pl = project_lines(a);
    let el = entity_lines(a);
    let ll = layers_lines(a);
    let sl = secrets_lines(a);
    let pe = pl.len() as int;
    let ee = pe + el.len();
    let le = ee + ll.len();
    assert(x.len() == le + sl.len());
    assert forall|j: int| 0 <= j < pe implies x[j] == #[trigger] pl[j] by {}
    assert forall|j: int| 0 <= j < el.len() implies x[pe + j] == #[trigger] el[j] by {}
    assert forall|j: int| 0 <= j < ll.len() implies x[ee + j] == #[trigger] ll[j] by {}
    assert forall|j: int| 0 <= j < sl.len() implies x[le + j] == #[trigger] sl[j] by {}
    // where each block starts
    if sl.len() > 0 {
        assert(x[le + 0] == sl[0]);
        lemma_keyword_line(x[le]);
    }
    if ll.len() > 0 {
        assert(x[ee + 0] == ll[0]);
        lemma_keyword_line(x[ee]);
    }
    assert(le == x.len() || at_top(x[le]));
    assert(ee == x.len() || at_top(x[ee]));
    let ents = strs_of(a.entities@);
    if el.len() > 0 {
        assert(x[pe + 0] == el[0]);
        assert(x[pe + 1] == el[1]);
        lemma_strs_items(a.entities@);
        lemma_step_entity(x, pe, ents, EnthSpecView { project: written_project(a), version: "1"@, ..empty_spec(source_file) });
    }
    assert(pe == x.len() || at_top(x[pe]));
    // version and project
    let s0 = empty_spec(source_file);
    let s1 = EnthSpecView { version: "1"@, ..s0 };
    let s2 = EnthSpecView { project: written_project(a), ..s1 };
    assert(x[0] == pl[0] && x[1] == pl[1]);
    lemma_step_project(a, x, s1);
    lemma_step_version(x, s0);
    // entities
    let s3 = if el.len() > 0 { EnthSpecView { entities: ents, ..s2 } } else { s2 };
    assert(parse_lines(x, pe, s2) == parse_lines(x, ee, s3));
    // layers
    let s4 = if ll.len() > 0 {
        let layer_ls = all_layer_lines(a.layers@);
        lemma_all_layer_lines_ok(a.layers@);
        assert forall|k: int| ee + 1 <= k < le - 1 implies (#[trigger] x[k]).len() > 0 && x[k][0] == ' ' by {
            assert(x[ee + (k - ee)] == ll[k - ee]);
            assert(ll[k - ee] == layer_ls[k - ee - 1]);
        }
        assert(x[ee + (ll.len() - 1)] == ll[ll.len() - 1]);
        let r = lemma_step_layers(x, ee, le, s3);
        assert(x.subrange(ee + 1, le) =~= layer_ls + seq![Seq::<char>::empty()]);
        lemma_layer_names_concat(layer_ls, seq![Seq::<char>::empty()]);
        lemma_empty_line();
        assert(layer_names(seq![Seq::<char>::empty()]) =~= Seq::<Seq<char>>::empty()) by {
            assert(seq![Seq::<char>::empty()].drop_last() =~= Seq::<Seq<char>>::empty());
            assert(layer_names(Seq::<Seq<char>>::empty()) =~= Seq::<Seq<char>>::empty());
        }
        if names_readable(a.layers@) {
            lemma_all_layer_names(a.layers@);
            assert(r.layers_order =~= layer_name_list(a.layers@));
        }
        r
    } else {
        assert(layer_name_list(a.layers@) =~= Seq::<Seq<char>>::empty());
        s3
    };
    assert(names_readable(a.layers@) ==> s4.layers_order == layer_name_list(a.layers@));
    assert(parse_lines(x, ee, s3) == parse_lines(x, le, s4));
    assert(s4.version == "1"@ && s4.project == written_project(a) && s4.secrets == Seq::<Seq<char>>::empty());
    assert(s4.entities == ents);
    // secrets
    let secs = strs_of(a.secrets@);
    if sl.len() > 0 {
        assert forall|k: int| 0 <= k < secs.len() implies x[le + 1 + k] == "  "@ + #[trigger] secs[k] by {
            assert(x[le + (1 + k)] == sl[1 + k]);
        }
        assert forall|k: int| 0 <= k < secs.len() implies secret_item(#[trigger] secs[k]) by {
            assert(secret_item(a.secrets@[k]@));
        }
        assert(x.last() == sl[sl.len() - 1]);
        lemma_step_secrets(x, le, secs, s4);
        assert(Seq::<Seq<char>>::empty() + secs =~= secs);
    } else {
        assert(secs =~= Seq::<Seq<char>>::empty());
    }
}

/// The name and the stack among the written project entries.
proof fn lemma_written_project(a: WizardAnswers)
    requires
        readable(a),
    ensures
        assoc_get(written_project(a), "NAME"@) == Some(
            ProjectValueView::Str("\""@ + written_name(a) + "\""@),
        ),
        assoc_get(written_project(a), "STACK"@) == if a.stack@.len() > 0 {
            Some(ProjectValueView::List(strs_of(a.stack@)))
        } else {
            None::<ProjectValueView>
        },
{
    reveal_strlit("NAME");
    reveal_strlit("LANG");
    reveal_strlit("ARCH");
    reveal_strlit("STACK");
    assert("NAME"@ != "LANG"@) by {
        assert("NAME"@[0] != "LANG"@[0]);
    }
    assert("NAME"@ != "ARCH"@) by {
        assert("NAME"@[0] != "ARCH"@[0]);
    }
    assert("STACK"@.len() != "NAME"@.len() && "STACK"@.len() != "LANG"@.len() && "STACK"@.len()
        != "ARCH"@.len());
    // the project entries
    let n = ProjectValueView::Str("\""@ + written_name(a) + "\""@);
    let p1 = assoc_insert(Seq::<(Seq<char>, ProjectValueView)>::empty(), "NAME"@, n);
    let p2 = assoc_insert(p1, "LANG"@, project_value("LANG"@, a.lang@));
    let p3 = assoc_insert(p2, "ARCH"@, project_value("ARCH"@, a.arch@));
    lemma_assoc_get_insert(Seq::<(Seq<char>, ProjectValueView)>::empty(), "NAME"@, n, "NAME"@);
    lemma_assoc_get_insert(Seq::<(Seq<char>, ProjectValueView)>::empty(), "NAME"@, n, "STACK"@);
    lemma_assoc_get_insert(p1, "LANG"@, project_value("LANG"@, a.lang@), "NAME"@);
    lemma_assoc_get_insert(p1, "LANG"@, project_value("LANG"@, a.lang@), "STACK"@);
    lemma_assoc_get_insert(p2, "ARCH"@, project_value("ARCH"@, a.arch@), "NAME"@);
    lemma_assoc_get_insert(p2, "ARCH"@, project_value("ARCH"@, a.arch@), "STACK"@);
    assert(assoc_get(Seq::<(Seq<char>, ProjectValueView)>::empty(), "STACK"@) is None) by {
        lemma_first_with_none(Seq::<(Seq<char>, ProjectValueView)>::empty(), keyed::<ProjectValueView>("STACK"@));
    }
    if a.stack@.len() > 0 {
        let j = join(strs_of(a.stack@), ", "@);
        lemma_assoc_get_insert(p3, "STACK"@, project_value("STACK"@, j), "NAME"@);
        lemma_assoc_get_insert(p3, "STACK"@, project_value("STACK"@, j), "STACK"@);
        lemma_stack_value(a);
    }
}

/// The spec file that the new-project wizard writes reads back, through the
/// parser, with version `1`, the project entries the wizard wrote (among them
/// the quoted name and the stack list as given), the entities and secrets as
/// given, and, when the layer names are trimmed and free of comment signs, the
/// layer names in order. This holds for answers whose pieces are single lines
/// without comment signs, whose list items are trimmed, comma-free and nonempty,
/// and whose secrets are single words.
pub proof fn law_wizard_spec_reads_back(a: WizardAnswers, source_file: Seq<char>)
    requires
        readable(a),
    ensures
        parse_spec(source_file, rendered_spec(a)).version == "1"@,
        parse_spec(source_file, rendered_spec(a)).project == written_project(a),
        assoc_get(parse_spec(source_file, rendered_spec(a)).project, "NAME"@) == Some(
            ProjectValueView::Str("\""@ + written_name(a) + "\""@),
        ),
        assoc_get(parse_spec(source_file, rendered_spec(a)).project, "STACK"@) == if a.stack@.len()
            > 0 {
            Some(ProjectValueView::List(strs_of(a.stack@)))
        } else {
            None::<ProjectValueView>
        },
        parse_spec(source_file, rendered_spec(a)).entities == strs_of(a.entities@),
        parse_spec(source_file, rendered_spec(a)).secrets == strs_of(a.secrets@),
        names_readable(a.layers@) ==> parse_spec(source_file, rendered_spec(a)).layers_order
            == layer_name_list(a.layers@),
{
    lemma_read_back(a, source_file);
    lemma_written_project(a);
}

// ---------------------------------------------------------------------------
// NEVER rules
// ---------------------------------------------------------------------------

/// The `NEVER` lines after a layer's name line, then one blank last line.
proof fn lemma_never_run(ls: Seq<Seq<char>>, i: int, name: Seq<char>, vs: Seq<Seq<char>>, s: EnthSpecView)
    requires
        0 <= i,
        ls.len() == i + vs.len() + 1,
        ls.last() == Seq::<char>::empty(),
        forall|j: int| 0 <= j < vs.len() ==> ls[i + j] == "    NEVER "@ + #[trigger] vs[j],
        forall|j: int| 0 <= j < vs.len() ==> value_item(#[trigger] vs[j]),
        s.layers.len() == 1,
        s.layers[0].name == name,
    ensures
        layers_section(ls, i, Some(name), s) == (EnthSpecView {
            layers: seq![LayerView { never: s.layers[0].never + vs, ..s.layers[0] }],
            ..s
        }),
    decreases vs.len(),
{
    reveal_strlit("    NEVER ");
    reveal_strlit("    ");
    reveal_strlit("NEVER ");
    reveal_strlit("NEVER");
    reveal_strlit(" ");
    reveal_strlit("OWNS");
    reveal_strlit("CAN");
    reveal_strlit("CANNOT");
    reveal_strlit("CALLS");
    if vs.len() == 0 {
        lemma_empty_line();
        assert(ls[i] == ls.last());
        assert(s.layers =~= seq![LayerView { never: s.layers[0].never + vs, ..s.layers[0] }]);
        assert(layers_section(ls, i + 1, Some(name), s) == s);
    } else {
        let v = vs[0];
        assert(ls[i + 0] == "    NEVER "@ + vs[0]);
        assert(value_item(vs[0]));
        let t = "NEVER "@ + v;
        assert("    NEVER "@ + v =~= "    "@ + t);
        assert(t[0] == 'N');
        assert(t.last() == v.last());
        lemma_no_char_lit("NEVER "@, '#');
        lemma_no_char_concat("NEVER "@, v, '#');
        lemma_indented_line("    "@, t);
        assert("NEVER "@ + v =~= "NEVER"@ + " "@ + v);
        lemma_key_value("NEVER"@, v);
        let l = s.layers[0];
        assert(crate::parser::is_first_with(s.layers, layer_named(name), 0));
        lemma_first_with_some(s.layers, layer_named(name), 0);
        assert("NEVER"@ != "CALLS"@) by {
            assert("NEVER"@[0] != "CALLS"@[0]);
        }
        let l2 = LayerView { never: l.never.push(v), ..l };
        assert(crate::parser::layer_property(l, "NEVER"@, v) == l2);
        let s1 = EnthSpecView { layers: s.layers.update(0, l2), ..s };
        assert(layer_line(s, name, t) == s1);
        let rest = vs.drop_first();
        assert forall|j: int| 0 <= j < rest.len() implies ls[(i + 1) + j] == "    NEVER "@ + #[trigger] rest[j] by {
            assert(rest[j] == vs[j + 1]);
            assert(ls[i + (j + 1)] == "    NEVER "@ + vs[j + 1]);
        }
        assert forall|j: int| 0 <= j < rest.len() implies value_item(#[trigger] rest[j]) by {
            assert(rest[j] == vs[j + 1]);
        }
        lemma_never_run(ls, i + 1, name, rest, s1);
        assert(s1.layers[0] == l2);
        assert(l2.never + rest =~= l.never + vs);
        assert(layers_section(ls, i, Some(name), s) == layers_section(ls, i + 1, Some(name), s1));
    }
}

/// A layer block whose name line is followed by `NEVER` lines, one per rule,
/// reads back as one layer whose `never` list holds every rule, in order: each
/// `NEVER` line adds its rule and keeps the earlier ones. This holds for names
/// and rules that are trimmed, nonempty single lines without comment signs.
pub proof fn law_never_lines_kept(source_file: Seq<char>, name: Seq<char>, rules: Seq<Seq<char>>)
    requires
        value_item(name),
        forall|j: int| 0 <= j < rules.len() ==> value_item(#[trigger] rules[j]),
    ensures
        ({
            let sp = parse_spec(
                source_file,
                text_of(seq!["LAYERS"@, "  "@ + name] + never_lines_of(rules) + seq![Seq::<char>::empty()]),
            );
            &&& sp.layers.len() == 1
            &&& sp.layers[0].name == name
            &&& sp.layers[0].never == rules
            &&& sp.layers_order == seq![name]
        }),
{
    reveal_strlit("LAYERS");
    reveal_strlit("  ");
    reveal_strlit("    NEVER ");
    let nl = never_lines_of(rules);
    let x = seq!["LAYERS"@, "  "@ + name] + nl + seq![Seq::<char>::empty()];
    // the lines
    lemma_lit_line("LAYERS"@);
    lemma_one_line_plain("LAYERS"@);
    lemma_prefixed_line("  "@, name);
    assert forall|j: int| 0 <= j < nl.len() implies plain_line(#[trigger] nl[j]) && nl[j].len() > 0
        && nl[j][0] == ' ' by {
        assert(value_item(rules[j]));
        lemma_lit_line("    NEVER "@);
        lemma_prefixed_line("    NEVER "@, rules[j]);
    }
    lemma_one_line_plain(Seq::<char>::empty());
    assert(all_plain(x));
    lemma_lines_text_of(x);
    // reading
    let s0 = empty_spec(source_file);
    assert forall|k: int| 1 <= k < x.len() - 1 implies (#[trigger] x[k]).len() > 0 && x[k][0] == ' ' by {
        if k >= 2 {
            assert(x[k] == nl[k - 2]);
        }
    }
    let s2 = lemma_step_layers(x, 0, x.len() as int, s0);
    assert(parse_lines(x, x.len() as int, s2) == s2);
    // the name line
    lemma_indented_line("  "@, name);
    let s1 = EnthSpecView {
        layers_order: seq![name],
        layers: upsert_layer(s0.layers, new_layer(name)),
        ..s0
    };
    assert(s0.layers_order.push(name) =~= seq![name]);
    lemma_first_with_none(s0.layers, layer_named(name));
    assert(s1.layers =~= seq![new_layer(name)]);
    assert(layers_section(x, 1, None, s0) == layers_section(x, 2, Some(name), s1));
    assert forall|j: int| 0 <= j < rules.len() implies x[2 + j] == "    NEVER "@ + #[trigger] rules[j] by {
        assert(x[2 + j] == nl[j]);
    }
    lemma_never_run(x, 2, name, rules, s1);
    assert(Seq::<Seq<char>>::empty() + rules =~= rules);
}

/// A layer block whose name line is followed by a `CALLS` line that lists
/// layer names separated by `", "` reads back as one layer that calls exactly
/// those names, in order. This holds for a trimmed name without comment sign
/// and for list items that are trimmed, nonempty, comma-free single lines
/// without comment signs.
pub proof fn law_calls_line_kept(source_file: Seq<char>, name: Seq<char>, calls: Seq<Seq<char>>)
    requires
        value_item(name),
        calls.len() > 0,
        forall|j: int| 0 <= j < calls.len() ==> list_item(#[trigger] calls[j]),
    ensures
        ({
            let sp = parse_spec(
                source_file,
                text_of(
                    seq![
                        "LAYERS"@,
                        "  "@ + name,
                        "    CALLS "@ + join(calls, ", "@),
                        Seq::<char>::empty(),
                    ],
                ),
            );
            &&& sp.layers.len() == 1
            &&& sp.layers[0].name == name
            &&& sp.layers[0].calls == calls
        }),
{
    reveal_strlit("LAYERS");
    reveal_strlit("  ");
    reveal_strlit("    CALLS ");
    reveal_strlit("    ");
    reveal_strlit("CALLS ");
    reveal_strlit("CALLS");
    reveal_strlit(" ");
    reveal_strlit("OWNS");
    reveal_strlit("CAN");
    reveal_strlit("CANNOT");
    let j = join(calls, ", "@);
    lemma_join_items(calls);
    assert(list_item(calls[0]));
    assert(list_item(calls[calls.len() - 1]));
    let cl = "    CALLS "@ + j;
    let x = seq!["LAYERS"@, "  "@ + name, cl, Seq::<char>::empty()];
    lemma_lit_line("LAYERS"@);
    lemma_one_line_plain("LAYERS"@);
    lemma_prefixed_line("  "@, name);
    lemma_lit_line("    CALLS "@);
    lemma_prefixed_line("    CALLS "@, j);
    lemma_one_line_plain(Seq::<char>::empty());
    assert(all_plain(x));
    lemma_lines_text_of(x);
    let s0 = empty_spec(source_file);
    let s2 = lemma_step_layers(x, 0, 4, s0);
    assert(parse_lines(x, 4, s2) == s2);
    lemma_indented_line("  "@, name);
    let s1 = EnthSpecView {
        layers_order: s0.layers_order.push(name),
        layers: upsert_layer(s0.layers, new_layer(name)),
        ..s0
    };
    lemma_first_with_none(s0.layers, layer_named(name));
    assert(s1.layers =~= seq![new_layer(name)]);
    assert(layers_section(x, 1, None, s0) == layers_section(x, 2, Some(name), s1));
    // the CALLS line
    let t = "CALLS "@ + j;
    assert(cl =~= "    "@ + t);
    assert(t[0] == 'C');
    assert(t.last() == j.last());
    lemma_no_char_lit("CALLS "@, '#');
    lemma_no_char_concat("CALLS "@, j, '#');
    lemma_indented_line("    "@, t);
    assert(t =~= "CALLS"@ + " "@ + j);
    lemma_key_value("CALLS"@, j);
    assert(crate::parser::is_first_with(s1.layers, layer_named(name), 0));
    lemma_first_with_some(s1.layers, layer_named(name), 0);
    assert forall|k: int| 0 <= k < calls.len() implies {
        let c = #[trigger] calls[k];
        &&& c.len() > 0
        &&& trim(c) == c
        &&& !has_char(c, ',')
    } by {
        assert(list_item(calls[k]));
        lemma_trim_noop(calls[k]);
    }
    crate::text::law_split_list_join(calls);
    let l2 = LayerView { calls: calls, ..new_layer(name) };
    assert(crate::parser::layer_property(new_layer(name), "CALLS"@, j) == l2);
    let s3 = EnthSpecView { layers: s1.layers.update(0, l2), ..s1 };
    assert(layer_line(s1, name, t) == s3);
    assert(layers_section(x, 2, Some(name), s1) == layers_section(x, 3, Some(name), s3));
    lemma_empty_line();
    assert(layers_section(x, 3, Some(name), s3) == layers_section(x, 4, Some(name), s3));
    assert(layers_section(x, 4, Some(name), s3) == s3);
}

} // verus!
