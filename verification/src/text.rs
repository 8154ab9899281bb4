//! Character-level text utilities: whitespace, trimming, splitting, lines and words.
//!
//! Every string here is modelled as its sequence of Unicode scalar values.
use vstd::prelude::*;

verus! {

// ---------------------------------------------------------------------------
// Character classes
// ---------------------------------------------------------------------------

/// Unicode `White_Space`, as `char::is_whitespace` and `str::trim` use it.
pub open spec fn is_ws(c: char) -> bool {
    let u = c as u32;
    u == 0x20 || (0x09 <= u && u <= 0x0D) || u == 0x85 || u == 0xA0 || u == 0x1680 || (0x2000
        <= u && u <= 0x200A) || u == 0x2028 || u == 0x2029 || u == 0x202F || u == 0x205F || u
        == 0x3000
}

pub open spec fn is_ascii_digit(c: char) -> bool {
    '0' as u32 <= c as u32 && c as u32 <= '9' as u32
}

pub open spec fn is_ascii_upper(c: char) -> bool {
    'A' as u32 <= c as u32 && c as u32 <= 'Z' as u32
}

pub open spec fn is_ascii_lower(c: char) -> bool {
    'a' as u32 <= c as u32 && c as u32 <= 'z' as u32
}

pub open spec fn ws() -> spec_fn(char) -> bool {
    |c: char| is_ws(c)
}

pub open spec fn non_ws() -> spec_fn(char) -> bool {
    |c: char| !is_ws(c)
}

/// The characters that `indent_len` counts: space and tab.
pub open spec fn indent_char() -> spec_fn(char) -> bool {
    |c: char| c == ' ' || c == '\t'
}

pub open spec fn quote() -> spec_fn(char) -> bool {
    |c: char| c == '"'
}

pub open spec fn other_than(x: char) -> spec_fn(char) -> bool {
    |c: char| c != x
}

/// An executable name for each character class used by the library.
pub enum CharClass {
    Whitespace,
    NonWhitespace,
    Indent,
    Quote,
    OtherThan(char),
}

pub open spec fn class_pred(k: CharClass) -> spec_fn(char) -> bool {
    match k {
        CharClass::Whitespace => ws(),
        CharClass::NonWhitespace => non_ws(),
        CharClass::Indent => indent_char(),
        CharClass::Quote => quote(),
        CharClass::OtherThan(x) => other_than(x),
    }
}

pub fn is_whitespace(c: char) -> (b: bool)
    ensures
        b == is_ws(c),
{
    let u = c as u32;
    u == 0x20 || (0x09 <= u && u <= 0x0D) || u == 0x85 || u == 0xA0 || u == 0x1680 || (0x2000
        <= u && u <= 0x200A) || u == 0x2028 || u == 0x2029 || u == 0x202F || u == 0x205F || u
        == 0x3000
}

pub fn is_digit(c: char) -> (b: bool)
    ensures
        b == is_ascii_digit(c),
{
    '0' as u32 <= c as u32 && c as u32 <= '9' as u32
}

pub fn is_upper(c: char) -> (b: bool)
    ensures
        b == is_ascii_upper(c),
{
    'A' as u32 <= c as u32 && c as u32 <= 'Z' as u32
}

pub fn is_lower(c: char) -> (b: bool)
    ensures
        b == is_ascii_lower(c),
{
    'a' as u32 <= c as u32 && c as u32 <= 'z' as u32
}

pub fn in_class(k: &CharClass, c: char) -> (b: bool)
    ensures
        b == class_pred(*k)(c),
{
    match k {
        CharClass::Whitespace => is_whitespace(c),
        CharClass::NonWhitespace => !is_whitespace(c),
        CharClass::Indent => c == ' ' || c == '\t',
        CharClass::Quote => c == '"',
        CharClass::OtherThan(x) => c != *x,
    }
}

// ---------------------------------------------------------------------------
// Leading and trailing runs
// ---------------------------------------------------------------------------

/// Length of the longest prefix of `s` whose characters all satisfy `p`.
pub open spec fn lead(s: Seq<char>, p: spec_fn(char) -> bool) -> nat
    decreases s.len(),
{
    if s.len() > 0 && p(s[0]) {
        1 + lead(s.drop_first(), p)
    } else {
        0
    }
}

/// Length of the longest suffix of `s` whose characters all satisfy `p`.
pub open spec fn trail(s: Seq<char>, p: spec_fn(char) -> bool) -> nat
    decreases s.len(),
{
    if s.len() > 0 && p(s.last()) {
        1 + trail(s.drop_last(), p)
    } else {
        0
    }
}

pub proof fn lemma_lead(s: Seq<char>, p: spec_fn(char) -> bool)
    ensures
        lead(s, p) <= s.len(),
        forall|j: int| 0 <= j < lead(s, p) ==> p(#[trigger] s[j]),
        lead(s, p) < s.len() ==> !p(s[lead(s, p) as int]),
    decreases s.len(),
{
    if s.len() > 0 && p(s[0]) {
        lemma_lead(s.drop_first(), p);
        assert forall|j: int| 0 <= j < lead(s, p) implies p(#[trigger] s[j]) by {
            if j > 0 {
                assert(s[j] == s.drop_first()[j - 1]);
            }
        }
    }
}

pub proof fn lemma_lead_unique(s: Seq<char>, p: spec_fn(char) -> bool, k: int)
    requires
        0 <= k <= s.len(),
        forall|j: int| 0 <= j < k ==> p(#[trigger] s[j]),
        k < s.len() ==> !p(s[k]),
    ensures
        lead(s, p) == k,
    decreases s.len(),
{
    if k > 0 {
        assert(p(s[0]));
        let t = s.drop_first();
        assert forall|j: int| 0 <= j < k - 1 implies p(#[trigger] t[j]) by {
            assert(t[j] == s[j + 1]);
        }
        if k - 1 < t.len() {
            assert(t[k - 1] == s[k]);
        }
        lemma_lead_unique(t, p, k - 1);
    }
}

pub proof fn lemma_trail(s: Seq<char>, p: spec_fn(char) -> bool)
    ensures
        trail(s, p) <= s.len(),
        forall|j: int| s.len() - trail(s, p) <= j < s.len() ==> p(#[trigger] s[j]),
        trail(s, p) < s.len() ==> !p(s[s.len() - 1 - trail(s, p)]),
    decreases s.len(),
{
    if s.len() > 0 && p(s.last()) {
        let t = s.drop_last();
        lemma_trail(t, p);
        assert forall|j: int| s.len() - trail(s, p) <= j < s.len() implies p(#[trigger] s[j]) by {
            if j < s.len() - 1 {
                assert(s[j] == t[j]);
            }
        }
        if trail(s, p) < s.len() {
            assert(s[s.len() - 1 - trail(s, p)] == t[t.len() - 1 - trail(t, p)]);
        }
    }
}

pub proof fn lemma_trail_unique(s: Seq<char>, p: spec_fn(char) -> bool, k: int)
    requires
        0 <= k <= s.len(),
        forall|j: int| s.len() - k <= j < s.len() ==> p(#[trigger] s[j]),
        k < s.len() ==> !p(s[s.len() - 1 - k]),
    ensures
        trail(s, p) == k,
    decreases s.len(),
{
    if k > 0 {
        assert(p(s[s.len() - 1]));
        let t = s.drop_last();
        assert forall|j: int| t.len() - (k - 1) <= j < t.len() implies p(#[trigger] t[j]) by {
            assert(t[j] == s[j]);
        }
        if k - 1 < t.len() {
            assert(t[t.len() - 1 - (k - 1)] == s[s.len() - 1 - k]);
        }
        lemma_trail_unique(t, p, k - 1);
    } else {
        if s.len() > 0 {
            assert(s.last() == s[s.len() - 1]);
        }
    }
}

/// `s` without its leading run of `p`-characters.
pub open spec fn strip_lead(s: Seq<char>, p: spec_fn(char) -> bool) -> Seq<char> {
    s.skip(lead(s, p) as int)
}

/// `s` without its trailing run of `p`-characters.
pub open spec fn strip_trail(s: Seq<char>, p: spec_fn(char) -> bool) -> Seq<char> {
    s.take(s.len() - trail(s, p))
}

/// `str::trim_start`.
pub open spec fn trim_start(s: Seq<char>) -> Seq<char> {
    strip_lead(s, ws())
}

/// `str::trim`.
pub open spec fn trim(s: Seq<char>) -> Seq<char> {
    strip_trail(strip_lead(s, ws()), ws())
}

/// `str::trim_matches('"')`.
pub open spec fn trim_quotes(s: Seq<char>) -> Seq<char> {
    strip_trail(strip_lead(s, quote()), quote())
}

/// Index of the first `c` in `s`, or `s.len()` when there is none.
pub open spec fn pos(s: Seq<char>, c: char) -> nat {
    lead(s, other_than(c))
}

pub open spec fn has_char(s: Seq<char>, c: char) -> bool {
    pos(s, c) < s.len()
}

// ---------------------------------------------------------------------------
// Splitting
// ---------------------------------------------------------------------------

pub open spec fn keep_nonempty(t: Seq<char>) -> Seq<Seq<char>> {
    if t.len() > 0 {
        seq![t]
    } else {
        Seq::empty()
    }
}

/// The comma-separated pieces of `s`, each trimmed, with the empty ones dropped.
pub open spec fn comma_list(s: Seq<char>) -> Seq<Seq<char>>
    decreases s.len(),
{
    let k = pos(s, ',');
    if k < s.len() {
        keep_nonempty(trim(s.take(k as int))) + comma_list(s.skip(k as int + 1))
    } else {
        keep_nonempty(trim(s))
    }
}

/// `str::lines`: pieces between `'\n'`, a `'\r'` right before a `'\n'` dropped,
/// and no empty last line after a final `'\n'`.
pub open spec fn lines(s: Seq<char>) -> Seq<Seq<char>>
    decreases s.len(),
{
    if s.len() == 0 {
        Seq::empty()
    } else {
        let k = pos(s, '\n');
        if k < s.len() {
            seq![strip_cr(s.take(k as int))] + lines(s.skip(k as int + 1))
        } else {
            seq![s]
        }
    }
}

pub open spec fn strip_cr(l: Seq<char>) -> Seq<char> {
    if l.len() > 0 && l.last() == '\r' {
        l.drop_last()
    } else {
        l
    }
}

/// `str::split_whitespace`: the maximal runs of non-whitespace characters.
pub open spec fn words(s: Seq<char>) -> Seq<Seq<char>>
    decreases s.len(),
{
    if s.len() == 0 {
        Seq::empty()
    } else if is_ws(s[0]) {
        words(s.drop_first())
    } else {
        let k = lead(s, non_ws());
        proof {
            lemma_lead(s, non_ws());
        }
        seq![s.take(k as int)] + words(s.skip(k as int))
    }
}

/// `str::split_once` at the first whitespace character.
pub open spec fn split_ws_once(s: Seq<char>) -> Option<(Seq<char>, Seq<char>)> {
    let k = lead(s, non_ws());
    if k < s.len() {
        Some((s.take(k as int), s.skip(k as int + 1)))
    } else {
        None
    }
}

/// The pieces joined with `sep` between neighbours.
pub open spec fn join(parts: Seq<Seq<char>>, sep: Seq<char>) -> Seq<char>
    decreases parts.len(),
{
    if parts.len() == 0 {
        Seq::empty()
    } else if parts.len() == 1 {
        parts[0]
    } else {
        join(parts.drop_last(), sep) + sep + parts.last()
    }
}

pub open spec fn starts_with(s: Seq<char>, p: Seq<char>) -> bool {
    p.len() <= s.len() && s.take(p.len() as int) == p
}

pub open spec fn ends_with(s: Seq<char>, p: Seq<char>) -> bool {
    p.len() <= s.len() && s.skip(s.len() - p.len()) == p
}

// ---------------------------------------------------------------------------
// Facts about trimming and splitting
// ---------------------------------------------------------------------------

/// `trim(s)` is the part of `s` between its leading and trailing whitespace.
pub proof fn lemma_trim_bounds(s: Seq<char>) -> (ab: (int, int))
    ensures
        0 <= ab.0 <= ab.1 <= s.len(),
        trim(s) == s.subrange(ab.0, ab.1),
        ab.0 < ab.1 ==> !is_ws(s[ab.0]) && !is_ws(s[ab.1 - 1]),
        forall|j: int| 0 <= j < ab.0 ==> is_ws(#[trigger] s[j]),
        forall|j: int| ab.1 <= j < s.len() ==> is_ws(#[trigger] s[j]),
{
    lemma_lead(s, ws());
    let a = lead(s, ws()) as int;
    let t = s.skip(a);
    lemma_trail(t, ws());
    let b = a + t.len() - trail(t, ws());
    assert(trim(s) =~= s.subrange(a, b));
    if a < b {
        assert(t[0] == s[a]);
        assert(t[t.len() - 1 - trail(t, ws())] == s[b - 1]);
    }
    assert forall|j: int| b <= j < s.len() implies is_ws(#[trigger] s[j]) by {
        assert(s[j] == t[j - a]);
    }
    (a, b)
}

/// A string that neither starts nor ends with whitespace is its own trim.
pub proof fn lemma_trim_noop(s: Seq<char>)
    requires
        s.len() > 0 ==> !is_ws(s[0]) && !is_ws(s.last()),
    ensures
        trim(s) == s,
{
    if s.len() > 0 {
        lemma_lead_unique(s, ws(), 0);
        assert(s.skip(0) =~= s);
        lemma_trail_unique(s, ws(), 0);
        assert(s.take(s.len() as int) =~= s);
    } else {
        assert(s.skip(0) =~= s);
        assert(s.take(0) =~= s);
    }
}

/// Trimming twice is trimming once.
pub proof fn lemma_trim_idempotent(s: Seq<char>)
    ensures
        trim(trim(s)) == trim(s),
{
    let (a, b) = lemma_trim_bounds(s);
    let t = trim(s);
    if t.len() > 0 {
        assert(t[0] == s[a]);
        assert(t.last() == s[b - 1]);
    }
    lemma_trim_noop(t);
}

/// `pos` finds `c` exactly when `s` holds it.
pub proof fn lemma_pos(s: Seq<char>, c: char)
    ensures
        pos(s, c) <= s.len(),
        pos(s, c) < s.len() ==> s[pos(s, c) as int] == c,
        forall|j: int| 0 <= j < pos(s, c) ==> #[trigger] s[j] != c,
{
    lemma_lead(s, other_than(c));
}

/// The items of a comma-separated list are nonempty, trimmed, and hold no comma.
pub proof fn law_split_list_items(s: Seq<char>)
    ensures
        forall|i: int|
            0 <= i < comma_list(s).len() ==> {
                let x = #[trigger] comma_list(s)[i];
                &&& x.len() > 0
                &&& trim(x) == x
                &&& forall|j: int| 0 <= j < x.len() ==> x[j] != ','
            },
    decreases s.len(),
{
    lemma_pos(s, ',');
    let k = pos(s, ',') as int;
    let head = s.take(k);
    let (a, b) = lemma_trim_bounds(head);
    lemma_trim_idempotent(head);
    let piece = trim(head);
    assert forall|j: int| 0 <= j < piece.len() implies piece[j] != ',' by {
        assert(piece[j] == head[a + j]);
    }
    if k < s.len() {
        law_split_list_items(s.skip(k + 1));
        let rest = comma_list(s.skip(k + 1));
        let h = keep_nonempty(piece);
        assert forall|i: int| 0 <= i < comma_list(s).len() implies {
            let x = #[trigger] comma_list(s)[i];
            &&& x.len() > 0
            &&& trim(x) == x
            &&& forall|j: int| 0 <= j < x.len() ==> x[j] != ','
        } by {
            assert(comma_list(s) == h + rest);
            if i >= h.len() {
                assert(comma_list(s)[i] == rest[i - h.len()]);
            }
        }
    } else {
        assert(head =~= s);
    }
}

/// Splitting at a comma splits the list in two.
pub proof fn lemma_comma_list_concat(a: Seq<char>, b: Seq<char>)
    ensures
        comma_list(a + ","@ + b) == comma_list(a) + comma_list(b),
    decreases a.len(),
{
    reveal_strlit(",");
    let s = a + ","@ + b;
    lemma_pos(a, ',');
    let k = pos(a, ',') as int;
    if k < a.len() {
        lemma_pos_append(a, ","@ + b, ',');
        assert(s =~= a + (","@ + b));
        assert(s.take(k) =~= a.take(k));
        assert(s.skip(k + 1) =~= a.skip(k + 1) + ","@ + b);
        lemma_comma_list_concat(a.skip(k + 1), b);
    } else {
        assert forall|j: int| 0 <= j < a.len() implies other_than(',')(#[trigger] s[j]) by {
            assert(s[j] == a[j]);
        }
        assert(s[a.len() as int] == ',');
        lemma_lead_unique(s, other_than(','), a.len() as int);
        assert(s.take(a.len() as int) =~= a);
        assert(s.skip(a.len() as int + 1) =~= b);
    }
}

/// A trimmed, nonempty string with one space before it trims back to itself.
proof fn lemma_trim_spaced(x: Seq<char>)
    requires
        x.len() > 0,
        trim(x) == x,
    ensures
        trim(" "@ + x) == x,
{
    reveal_strlit(" ");
    let (a, b) = lemma_trim_bounds(x);
    assert(x.subrange(a, b).len() == x.len());
    let s = " "@ + x;
    assert(s[1] == x[0]);
    assert(is_ws(s[0]));
    lemma_lead_unique(s, ws(), 1);
    assert(s.skip(1) =~= x);
    lemma_lead_unique(x, ws(), 0);
    assert(x.skip(0) =~= x);
}

/// Joining clean items with `", "` and splitting the result again gives the items back.
pub proof fn law_split_list_join(xs: Seq<Seq<char>>)
    requires
        forall|i: int|
            0 <= i < xs.len() ==> {
                let x = #[trigger] xs[i];
                &&& x.len() > 0
                &&& trim(x) == x
                &&& !has_char(x, ',')
            },
    ensures
        comma_list(join(xs, ", "@)) == xs,
    decreases xs.len(),
{
    reveal_strlit(" ");
    reveal_strlit(",");
    reveal_strlit(", ");
    if xs.len() == 0 {
        assert(comma_list(Seq::<char>::empty()) =~= Seq::<Seq<char>>::empty()) by {
            lemma_pos(Seq::<char>::empty(), ',');
            lemma_trim_noop(Seq::<char>::empty());
        }
    } else {
        let last = xs.last();
        assert(xs[xs.len() - 1] == last);
        let cl = comma_list(" "@ + last);
        assert(cl == seq![last]) by {
            let s = " "@ + last;
            lemma_pos(last, ',');
            assert forall|j: int| 0 <= j < s.len() implies other_than(',')(#[trigger] s[j]) by {
                if j > 0 {
                    assert(s[j] == last[j - 1]);
                }
            }
            lemma_lead_unique(s, other_than(','), s.len() as int);
            lemma_trim_spaced(last);
        }
        if xs.len() == 1 {
            assert(last.len() > 0);
            lemma_pos(last, ',');
            assert(comma_list(last) == keep_nonempty(trim(last)));
            assert(comma_list(join(xs, ", "@)) =~= xs);
        } else {
            let init = xs.drop_last();
            assert forall|i: int| 0 <= i < init.len() implies {
                let x = #[trigger] init[i];
                &&& x.len() > 0
                &&& trim(x) == x
                &&& !has_char(x, ',')
            } by {
                assert(init[i] == xs[i]);
            }
            law_split_list_join(init);
            assert(join(xs, ", "@) =~= join(init, ", "@) + ","@ + (" "@ + last));
            lemma_comma_list_concat(join(init, ", "@), " "@ + last);
            assert(comma_list(join(xs, ", "@)) =~= xs);
        }
    }
}

/// No whitespace character in `s`.
pub open spec fn no_ws(s: Seq<char>) -> bool {
    forall|j: int| 0 <= j < s.len() ==> !is_ws(#[trigger] s[j])
}

/// `pos` in a concatenation whose first part holds the character.
pub proof fn lemma_pos_append(x: Seq<char>, y: Seq<char>, c: char)
    requires
        pos(x, c) < x.len(),
    ensures
        pos(x + y, c) == pos(x, c),
{
    lemma_pos(x, c);
    let k = pos(x, c) as int;
    assert((x + y)[k] == x[k]);
    assert forall|j: int| 0 <= j < k implies other_than(c)(#[trigger] (x + y)[j]) by {
        assert((x + y)[j] == x[j]);
    }
    lemma_lead_unique(x + y, other_than(c), k);
}

/// The lines of a text that ends with a newline, followed by more text.
pub proof fn lemma_lines_append(x: Seq<char>, y: Seq<char>)
    requires
        x.len() > 0,
        x.last() == '\n',
    ensures
        lines(x + y) == lines(x) + lines(y),
    decreases x.len(),
{
    assert(x[x.len() - 1] == '\n');
    lemma_lead(x, other_than('\n'));
    let k = pos(x, '\n') as int;
    assert(k < x.len());
    lemma_pos_append(x, y, '\n');
    let xy = x + y;
    assert(xy.len() > 0);
    assert(xy.take(k) =~= x.take(k));
    if k + 1 == x.len() {
        assert(xy.skip(k + 1) =~= y);
        assert(x.skip(k + 1) =~= Seq::<char>::empty());
        assert(lines(x) =~= seq![strip_cr(x.take(k))] + lines(Seq::<char>::empty()));
        assert(lines(xy) =~= seq![strip_cr(x.take(k))] + lines(y));
    } else {
        let x2 = x.skip(k + 1);
        assert(x2.last() == x.last());
        assert(xy.skip(k + 1) =~= x2 + y);
        lemma_lines_append(x2, y);
        assert(lines(xy) =~= lines(x) + lines(y));
    }
}

/// A single line that does not end in a carriage return, followed by a newline.
pub proof fn lemma_lines_one(l: Seq<char>)
    requires
        forall|j: int| 0 <= j < l.len() ==> #[trigger] l[j] != '\n',
        !(l.len() > 0 && l.last() == '\r'),
    ensures
        lines(l + seq!['\n']) == seq![l],
{
    let x = l + seq!['\n'];
    assert forall|j: int| 0 <= j < l.len() implies other_than('\n')(#[trigger] x[j]) by {
        assert(x[j] == l[j]);
    }
    assert(x[l.len() as int] == '\n');
    lemma_lead_unique(x, other_than('\n'), l.len() as int);
    assert(x.take(l.len() as int) =~= l);
    assert(x.skip(l.len() as int + 1) =~= Seq::<char>::empty());
    assert(strip_cr(l) == l);
    assert(lines(Seq::<char>::empty()) =~= Seq::<Seq<char>>::empty());
    assert(lines(x) =~= seq![l] + Seq::<Seq<char>>::empty());
}

/// Joining a concatenation of lists.
pub proof fn lemma_join_append(a: Seq<Seq<char>>, b: Seq<Seq<char>>, sep: Seq<char>)
    requires
        a.len() > 0,
        b.len() > 0,
    ensures
        join(a + b, sep) == join(a, sep) + sep + join(b, sep),
    decreases b.len(),
{
    let ab = a + b;
    assert(ab.last() == b.last());
    if b.len() == 1 {
        assert(ab.drop_last() =~= a);
        assert(join(b, sep) == b[0]);
    } else {
        assert(ab.drop_last() =~= a + b.drop_last());
        lemma_join_append(a, b.drop_last(), sep);
        assert(join(ab, sep) =~= join(a, sep) + sep + join(b, sep));
    }
}

/// A line of a list that is not its last one is a line of the joined text.
pub proof fn lemma_join_has_line(ls: Seq<Seq<char>>, p: int)
    requires
        0 <= p < ls.len() - 1,
        forall|j: int| 0 <= j < ls[p].len() ==> #[trigger] ls[p][j] != '\n',
        !(ls[p].len() > 0 && ls[p].last() == '\r'),
    ensures
        lines(join(ls, "\n"@)).contains(ls[p]),
{
    let nl = seq!['\n'];
    reveal_strlit("\n");
    assert("\n"@ =~= nl);
    let rest = ls.skip(p + 1);
    assert(rest.len() > 0);
    lemma_join_append(seq![ls[p]], rest, "\n"@);
    assert(seq![ls[p]] + rest =~= ls.skip(p));
    let tail = ls[p] + nl + join(rest, nl);
    assert(join(ls.skip(p), nl) =~= tail);
    assert(tail =~= (ls[p] + nl) + join(rest, nl));
    lemma_lines_one(ls[p]);
    lemma_lines_append(ls[p] + nl, join(rest, nl));
    assert(lines(tail)[0] == ls[p]);
    if p == 0 {
        assert(ls.skip(0) =~= ls);
        assert(lines(join(ls, nl)).contains(ls[p]) || lines(join(ls, nl))[0] == ls[p]);
    } else {
        lemma_join_append(ls.take(p), ls.skip(p), nl);
        assert(ls.take(p) + ls.skip(p) =~= ls);
        let head = join(ls.take(p), nl) + nl;
        assert(join(ls, nl) =~= head + tail);
        lemma_lines_append(head, tail);
        assert(lines(join(ls, nl))[lines(head).len() as int] == ls[p]);
    }
}

/// Whitespace that precedes a word is skipped by `words`.
pub proof fn lemma_words_skip_ws(r: Seq<char>, w: Seq<char>)
    requires
        forall|j: int| 0 <= j < r.len() ==> is_ws(#[trigger] r[j]),
    ensures
        words(r + w) == words(w),
    decreases r.len(),
{
    if r.len() > 0 {
        let rw = r + w;
        assert(rw[0] == r[0]);
        assert(rw.drop_first() =~= r.drop_first() + w);
        lemma_words_skip_ws(r.drop_first(), w);
    } else {
        assert(r + w =~= w);
    }
}

/// A word, then whitespace, then more text.
pub proof fn lemma_words_first(w: Seq<char>, r: Seq<char>, rest: Seq<char>)
    requires
        w.len() > 0,
        no_ws(w),
        r.len() > 0,
        forall|j: int| 0 <= j < r.len() ==> is_ws(#[trigger] r[j]),
    ensures
        words(w + r + rest) == seq![w] + words(rest),
{
    let s = w + r + rest;
    assert(s[0] == w[0]);
    assert forall|j: int| 0 <= j < w.len() implies non_ws()(#[trigger] s[j]) by {
        assert(s[j] == w[j]);
    }
    assert(s[w.len() as int] == r[0]);
    lemma_lead_unique(s, non_ws(), w.len() as int);
    assert(s.take(w.len() as int) =~= w);
    assert(s.skip(w.len() as int) =~= r + rest);
    lemma_words_skip_ws(r, rest);
}

/// A word alone.
pub proof fn lemma_words_single(w: Seq<char>)
    requires
        w.len() > 0,
        no_ws(w),
    ensures
        words(w) == seq![w],
{
    assert(w[0] == w[0]);
    assert forall|j: int| 0 <= j < w.len() implies non_ws()(#[trigger] w[j]) by {
    }
    lemma_lead_unique(w, non_ws(), w.len() as int);
    assert(w.take(w.len() as int) =~= w);
    assert(w.skip(w.len() as int) =~= Seq::<char>::empty());
    assert(!is_ws(w[0]));
    assert(words(Seq::<char>::empty()) =~= Seq::<Seq<char>>::empty());
    assert(words(w) =~= seq![w] + Seq::<Seq<char>>::empty());
}

/// No newline in `l`, and no carriage return at its end.
pub open spec fn plain_line(l: Seq<char>) -> bool {
    (forall|j: int| 0 <= j < l.len() ==> #[trigger] l[j] != '\n') && !(l.len() > 0 && l.last()
        == '\r')
}

/// Reading back lines that were joined with newlines, with a final newline.
pub proof fn lemma_lines_of_joined(ls: Seq<Seq<char>>)
    requires
        ls.len() > 0,
        forall|i: int| 0 <= i < ls.len() ==> plain_line(#[trigger] ls[i]),
    ensures
        lines(join(ls, "\n"@) + "\n"@) == ls,
    decreases ls.len(),
{
    reveal_strlit("\n");
    let nl = seq!['\n'];
    assert("\n"@ =~= nl);
    assert(plain_line(ls[ls.len() - 1]));
    if ls.len() == 1 {
        assert(join(ls, nl) == ls[0]);
        lemma_lines_one(ls[0]);
        assert(ls =~= seq![ls[0]]);
    } else {
        let a = ls.drop_last();
        let b = ls.last();
        assert forall|i: int| 0 <= i < a.len() implies plain_line(#[trigger] a[i]) by {
            assert(a[i] == ls[i]);
        }
        lemma_lines_of_joined(a);
        let x = join(a, nl) + nl;
        assert(join(ls, nl) + nl =~= x + (b + nl));
        lemma_lines_append(x, b + nl);
        lemma_lines_one(b);
        assert(ls =~= a + seq![b]);
    }
}

/// The lines of a text hold no newline.
pub proof fn lemma_lines_no_newline(s: Seq<char>)
    ensures
        forall|i: int, j: int|
            0 <= i < lines(s).len() && 0 <= j < lines(s)[i].len() ==> #[trigger] lines(s)[i][j]
                != '\n',
    decreases s.len(),
{
    if s.len() > 0 {
        lemma_pos(s, '\n');
        let k = pos(s, '\n') as int;
        if k < s.len() {
            lemma_lines_no_newline(s.skip(k + 1));
            let h = strip_cr(s.take(k));
            assert forall|i: int, j: int|
                0 <= i < lines(s).len() && 0 <= j < lines(s)[i].len() implies #[trigger] lines(
                s,
            )[i][j] != '\n' by {
                if i == 0 {
                    assert(lines(s)[0] == h);
                    assert(h[j] == s[j]);
                } else {
                    assert(lines(s)[i] == lines(s.skip(k + 1))[i - 1]);
                }
            }
        } else {
            assert forall|i: int, j: int|
                0 <= i < lines(s).len() && 0 <= j < lines(s)[i].len() implies #[trigger] lines(
                s,
            )[i][j] != '\n' by {
                assert(lines(s)[i] == s);
            }
        }
    }
}

/// The words of a text are nonempty and hold no whitespace.
pub proof fn lemma_words_items(s: Seq<char>)
    ensures
        forall|i: int| 0 <= i < words(s).len() ==> (#[trigger] words(s)[i]).len() > 0 && no_ws(words(s)[i]),
    decreases s.len(),
{
    if s.len() == 0 {
    } else if is_ws(s[0]) {
        lemma_words_items(s.drop_first());
        assert(words(s) == words(s.drop_first()));
    } else {
        lemma_lead(s, non_ws());
        let k = lead(s, non_ws()) as int;
        assert(non_ws()(s[0]));
        assert(k > 0);
        lemma_words_items(s.skip(k));
        let w = s.take(k);
        assert forall|i: int| 0 <= i < words(s).len() implies (#[trigger] words(s)[i]).len() > 0
            && no_ws(words(s)[i]) by {
            if i == 0 {
                assert(words(s)[0] == w);
                assert forall|j: int| 0 <= j < w.len() implies !is_ws(#[trigger] w[j]) by {
                    assert(w[j] == s[j]);
                    assert(non_ws()(s[j]));
                }
            } else {
                assert(words(s)[i] == words(s.skip(k))[i - 1]);
            }
        }
    }
}

// ---------------------------------------------------------------------------
// Executable counterparts
// ---------------------------------------------------------------------------

/// The characters of a string slice, in order.
pub fn chars_of(s: &str) -> (res: Vec<char>)
    ensures
        res@ == s@,
{
    let mut res: Vec<char> = Vec::new();
    for c in it: s.chars()
        invariant
            res@ == it.seq().take(it.index() as int),
            it.seq() == s@,
    {
        res.push(c);
    }
    res
}

/// `String::push`: appends one character.
#[verifier::external_body]
fn push_char(s: &mut String, c: char)
    ensures
        final(s)@ == old(s)@.push(c),
{
    s.push(c);
}

/// The string made of the given characters.
pub fn string_of(v: &Vec<char>) -> (res: String)
    ensures
        res@ == v@,
{
    let mut res = String::new();
    let mut i: usize = 0;
    while i < v.len()
        invariant
            i <= v.len(),
            res@ == v@.take(i as int),
        decreases v.len() - i,
    {
        push_char(&mut res, v[i]);
        i += 1;
        assert(res@ =~= v@.take(i as int));
    }
    assert(v@.take(v.len() as int) =~= v@);
    res
}

/// A copy of `s[lo..hi]`.
pub fn slice_of(s: &Vec<char>, lo: usize, hi: usize) -> (res: Vec<char>)
    requires
        lo <= hi <= s.len(),
    ensures
        res@ == s@.subrange(lo as int, hi as int),
{
    let mut res: Vec<char> = Vec::new();
    let mut i = lo;
    while i < hi
        invariant
            lo <= i <= hi <= s.len(),
            res@ == s@.subrange(lo as int, i as int),
        decreases hi - i,
    {
        res.push(s[i]);
        i += 1;
        assert(res@ =~= s@.subrange(lo as int, i as int));
    }
    res
}

/// Appends `t` to `s`.
pub fn append(s: &mut Vec<char>, t: &Vec<char>)
    ensures
        final(s)@ == old(s)@ + t@,
{
    let mut i: usize = 0;
    while i < t.len()
        invariant
            i <= t.len(),
            s@ == old(s)@ + t@.take(i as int),
        decreases t.len() - i,
    {
        s.push(t[i]);
        i += 1;
        assert(s@ =~= old(s)@ + t@.take(i as int));
    }
    assert(t@.take(t.len() as int) =~= t@);
}

/// Appends the characters of `t` to `s`.
pub fn append_str(s: &mut Vec<char>, t: &str)
    ensures
        final(s)@ == old(s)@ + t@,
{
    let tv = chars_of(t);
    append(s, &tv);
}

/// Content equality of two character vectors.
pub fn eq_chars(a: &Vec<char>, b: &Vec<char>) -> (res: bool)
    ensures
        res == (a@ == b@),
{
    if a.len() != b.len() {
        return false;
    }
    let mut i: usize = 0;
    while i < a.len()
        invariant
            i <= a.len() == b.len(),
            forall|j: int| 0 <= j < i ==> a@[j] == b@[j],
        decreases a.len() - i,
    {
        if a[i] != b[i] {
            return false;
        }
        i += 1;
    }
    assert(a@ =~= b@);
    true
}

/// Content equality with a literal.
pub fn eq_str(a: &Vec<char>, b: &str) -> (res: bool)
    ensures
        res == (a@ == b@),
{
    let bv = chars_of(b);
    eq_chars(a, &bv)
}

pub fn starts_with_str(s: &Vec<char>, p: &str) -> (res: bool)
    ensures
        res == starts_with(s@, p@),
{
    let pv = chars_of(p);
    if pv.len() > s.len() {
        return false;
    }
    let head = slice_of(s, 0, pv.len());
    let r = eq_chars(&head, &pv);
    assert(head@ == s@.take(pv@.len() as int));
    r
}

pub fn ends_with_str(s: &Vec<char>, p: &str) -> (res: bool)
    ensures
        res == ends_with(s@, p@),
{
    let pv = chars_of(p);
    if pv.len() > s.len() {
        return false;
    }
    let tail = slice_of(s, s.len() - pv.len(), s.len());
    let r = eq_chars(&tail, &pv);
    assert(tail@ == s@.skip(s@.len() - pv@.len()));
    r
}

/// Length of the leading run of `s[lo..hi]` in class `k`.
pub fn lead_len(s: &Vec<char>, lo: usize, hi: usize, k: &CharClass) -> (n: usize)
    requires
        lo <= hi <= s.len(),
    ensures
        n == lead(s@.subrange(lo as int, hi as int), class_pred(*k)),
{
    let mut i = lo;
    while i < hi && in_class(k, s[i])
        invariant
            lo <= i <= hi <= s.len(),
            forall|j: int| lo <= j < i ==> class_pred(*k)(#[trigger] s@[j]),
        decreases hi - i,
    {
        i += 1;
    }
    proof {
        let t = s@.subrange(lo as int, hi as int);
        assert forall|j: int| 0 <= j < i - lo implies class_pred(*k)(#[trigger] t[j]) by {
            assert(t[j] == s@[lo + j]);
        }
        if i < hi {
            assert(t[i - lo] == s@[i as int]);
        }
        lemma_lead_unique(t, class_pred(*k), i - lo);
    }
    i - lo
}

/// Length of the trailing run of `s[lo..hi]` in class `k`.
pub fn trail_len(s: &Vec<char>, lo: usize, hi: usize, k: &CharClass) -> (n: usize)
    requires
        lo <= hi <= s.len(),
    ensures
        n == trail(s@.subrange(lo as int, hi as int), class_pred(*k)),
{
    let mut i = hi;
    while i > lo && in_class(k, s[i - 1])
        invariant
            lo <= i <= hi <= s.len(),
            forall|j: int| i <= j < hi ==> class_pred(*k)(#[trigger] s@[j]),
        decreases i - lo,
    {
        i -= 1;
    }
    proof {
        let t = s@.subrange(lo as int, hi as int);
        let m = hi - i;
        assert forall|j: int| t.len() - m <= j < t.len() implies class_pred(*k)(#[trigger] t[j]) by {
            assert(t[j] == s@[lo + j]);
        }
        if m < t.len() {
            assert(t[t.len() - 1 - m] == s@[i - 1]);
        }
        lemma_trail_unique(t, class_pred(*k), m as int);
    }
    hi - i
}

/// `str::trim`.
pub fn trim_chars(s: &Vec<char>) -> (res: Vec<char>)
    ensures
        res@ == trim(s@),
{
    let a = lead_len(s, 0, s.len(), &CharClass::Whitespace);
    proof {
        assert(s@.subrange(0, s@.len() as int) =~= s@);
        lemma_lead(s@, ws());
    }
    let b = trail_len(s, a, s.len(), &CharClass::Whitespace);
    proof {
        lemma_trail(s@.subrange(a as int, s@.len() as int), ws());
    }
    let res = slice_of(s, a, s.len() - b);
    proof {
        let t = strip_lead(s@, ws());
        assert(t =~= s@.subrange(a as int, s@.len() as int));
        assert(res@ =~= t.take(t.len() - trail(t, ws())));
    }
    res
}

/// `str::trim_matches('"')`.
pub fn trim_quotes_chars(s: &Vec<char>) -> (res: Vec<char>)
    ensures
        res@ == trim_quotes(s@),
{
    let a = lead_len(s, 0, s.len(), &CharClass::Quote);
    proof {
        assert(s@.subrange(0, s@.len() as int) =~= s@);
        lemma_lead(s@, quote());
    }
    let b = trail_len(s, a, s.len(), &CharClass::Quote);
    proof {
        lemma_trail(s@.subrange(a as int, s@.len() as int), quote());
    }
    let res = slice_of(s, a, s.len() - b);
    proof {
        let t = strip_lead(s@, quote());
        assert(t =~= s@.subrange(a as int, s@.len() as int));
        assert(res@ =~= t.take(t.len() - trail(t, quote())));
    }
    res
}

/// Index of the first `c` in `s`, or `s.len()`.
pub fn find_char(s: &Vec<char>, c: char) -> (res: usize)
    ensures
        res == pos(s@, c),
{
    let r = lead_len(s, 0, s.len(), &CharClass::OtherThan(c));
    assert(s@.subrange(0, s@.len() as int) =~= s@);
    r
}

/// The comma-separated pieces, trimmed, empty ones dropped.
pub fn split_list_chars(s: &Vec<char>) -> (res: Vec<Vec<char>>)
    ensures
        res@.map_values(|v: Vec<char>| v@) == comma_list(s@),
{
    let mut res: Vec<Vec<char>> = Vec::new();
    let mut seg: usize = 0;
    let mut i: usize = 0;
    assert(s@.skip(0) =~= s@);
    assert(res@.map_values(|v: Vec<char>| v@) + comma_list(s@) =~= comma_list(s@));
    while i < s.len()
        invariant
            seg <= i <= s.len(),
            forall|j: int| seg <= j < i ==> s@[j] != ',',
            res@.map_values(|v: Vec<char>| v@) + comma_list(s@.skip(seg as int)) == comma_list(
                s@,
            ),
        decreases s.len() - i,
    {
        if s[i] == ',' {
            let piece = slice_of(s, seg, i);
            let t = trim_chars(&piece);
            proof {
                let rest = s@.skip(seg as int);
                lemma_lead_unique(rest, other_than(','), i - seg);
                assert(rest.take(i - seg) =~= piece@);
                assert(rest.skip(i - seg + 1) =~= s@.skip(i + 1));
            }
            let ghost before = res@.map_values(|v: Vec<char>| v@);
            if t.len() > 0 {
                res.push(t);
                assert(res@.map_values(|v: Vec<char>| v@) =~= before + seq![t@]);
            }
            seg = i + 1;
        }
        i += 1;
    }
    let piece = slice_of(s, seg, s.len());
    let t = trim_chars(&piece);
    proof {
        let rest = s@.skip(seg as int);
        assert(rest =~= piece@);
        lemma_lead_unique(rest, other_than(','), rest.len() as int);
    }
    let ghost before = res@.map_values(|v: Vec<char>| v@);
    if t.len() > 0 {
        res.push(t);
        assert(res@.map_values(|v: Vec<char>| v@) =~= before + seq![t@]);
    } else {
        assert(before + Seq::<Seq<char>>::empty() =~= before);
    }
    res
}


pub open spec fn seqs_of(v: Seq<Vec<char>>) -> Seq<Seq<char>> {
    v.map_values(|x: Vec<char>| x@)
}

pub open spec fn strs_of(v: Seq<String>) -> Seq<Seq<char>> {
    v.map_values(|x: String| x@)
}

/// `str::split_whitespace`.
pub fn words_chars(s: &Vec<char>) -> (res: Vec<Vec<char>>)
    ensures
        seqs_of(res@) == words(s@),
{
    let mut res: Vec<Vec<char>> = Vec::new();
    let mut i: usize = 0;
    assert(s@.skip(0) =~= s@);
    assert(seqs_of(res@) + words(s@) =~= words(s@));
    while i < s.len()
        invariant
            i <= s.len(),
            seqs_of(res@) + words(s@.skip(i as int)) == words(s@),
        decreases s.len() - i,
    {
        let ghost t = s@.skip(i as int);
        if is_whitespace(s[i]) {
            assert(t.drop_first() =~= s@.skip(i + 1));
            i += 1;
        } else {
            let k = lead_len(s, i, s.len(), &CharClass::NonWhitespace);
            proof {
                assert(s@.subrange(i as int, s@.len() as int) =~= t);
                lemma_lead(t, non_ws());
                assert(k > 0);
            }
            let w = slice_of(s, i, i + k);
            let ghost before = seqs_of(res@);
            res.push(w);
            proof {
                assert(seqs_of(res@) =~= before + seq![w@]);
                assert(t.take(k as int) =~= w@);
                assert(t.skip(k as int) =~= s@.skip(i + k));
                assert(before + seq![w@] + words(s@.skip(i + k)) =~= before + (seq![w@] + words(
                    s@.skip(i + k),
                )));
            }
            i += k;
        }
    }
    assert(s@.skip(s@.len() as int) =~= Seq::<char>::empty());
    assert(seqs_of(res@) + Seq::<Seq<char>>::empty() =~= seqs_of(res@));
    res
}

/// `str::lines`.
pub fn lines_chars(s: &Vec<char>) -> (res: Vec<Vec<char>>)
    ensures
        seqs_of(res@) == lines(s@),
{
    let mut res: Vec<Vec<char>> = Vec::new();
    let mut start: usize = 0;
    assert(s@.skip(0) =~= s@);
    assert(seqs_of(res@) + lines(s@) =~= lines(s@));
    while start < s.len()
        invariant
            start <= s.len(),
            seqs_of(res@) + lines(s@.skip(start as int)) == lines(s@),
        decreases s.len() - start,
    {
        let ghost t = s@.skip(start as int);
        let k = lead_len(s, start, s.len(), &CharClass::OtherThan('\n'));
        assert(s@.subrange(start as int, s@.len() as int) =~= t);
        proof {
            lemma_lead(t, other_than('\n'));
        }
        let ghost before = seqs_of(res@);
        if start + k < s.len() {
            let mut line = slice_of(s, start, start + k);
            assert(line@ =~= t.take(k as int));
            if line.len() > 0 && line[line.len() - 1] == '\r' {
                line.pop();
                assert(line@ =~= t.take(k as int).drop_last());
            }
            res.push(line);
            proof {
                assert(seqs_of(res@) =~= before + seq![strip_cr(t.take(k as int))]);
                assert(t.skip(k as int + 1) =~= s@.skip(start + k + 1));
                assert(before + seq![strip_cr(t.take(k as int))] + lines(s@.skip(start + k + 1))
                    =~= before + (seq![strip_cr(t.take(k as int))] + lines(
                    s@.skip(start + k + 1),
                )));
            }
            start = start + k + 1;
        } else {
            let line = slice_of(s, start, s.len());
            assert(line@ =~= t);
            res.push(line);
            proof {
                assert(seqs_of(res@) =~= before + seq![t]);
                assert(s@.skip(s@.len() as int) =~= Seq::<char>::empty());
                assert(seqs_of(res@) + Seq::<Seq<char>>::empty() =~= seqs_of(res@));
            }
            start = s.len();
        }
    }
    assert(s@.skip(s@.len() as int) =~= Seq::<char>::empty());
    assert(seqs_of(res@) + Seq::<Seq<char>>::empty() =~= seqs_of(res@));
    res
}

/// The pieces joined with `sep`.
pub fn join_chars(parts: &Vec<Vec<char>>, sep: &str) -> (res: Vec<char>)
    ensures
        res@ == join(seqs_of(parts@), sep@),
{
    let sv = chars_of(sep);
    let mut res: Vec<char> = Vec::new();
    let mut i: usize = 0;
    while i < parts.len()
        invariant
            i <= parts.len(),
            sv@ == sep@,
            res@ == join(seqs_of(parts@).take(i as int), sep@),
        decreases parts.len() - i,
    {
        let ghost ps = seqs_of(parts@);
        if i > 0 {
            append(&mut res, &sv);
        }
        append(&mut res, &parts[i]);
        proof {
            assert(ps.take(i + 1).drop_last() =~= ps.take(i as int));
            if i == 0 {
                assert(join(ps.take(0), sep@) =~= Seq::<char>::empty());
                assert(res@ =~= ps.take(1)[0]);
            }
        }
        i += 1;
    }
    assert(seqs_of(parts@).take(parts.len() as int) =~= seqs_of(parts@));
    res
}

/// Splits at the first whitespace character, as `str::split_once` with `char::is_whitespace`.
pub fn split_ws_once_chars(s: &Vec<char>) -> (res: Option<(Vec<char>, Vec<char>)>)
    ensures
        match res {
            Some((a, b)) => split_ws_once(s@) == Some((a@, b@)),
            None => split_ws_once(s@) is None,
        },
{
    let k = lead_len(s, 0, s.len(), &CharClass::NonWhitespace);
    assert(s@.subrange(0, s@.len() as int) =~= s@);
    proof {
        lemma_lead(s@, non_ws());
    }
    if k < s.len() {
        let a = slice_of(s, 0, k);
        let b = slice_of(s, k + 1, s.len());
        assert(a@ =~= s@.take(k as int));
        assert(b@ =~= s@.skip(k as int + 1));
        Some((a, b))
    } else {
        None
    }
}

/// The strings made of the given character vectors.
pub fn strings_of(v: &Vec<Vec<char>>) -> (res: Vec<String>)
    ensures
        strs_of(res@) == seqs_of(v@),
{
    let mut res: Vec<String> = Vec::new();
    let mut i: usize = 0;
    while i < v.len()
        invariant
            i <= v.len(),
            strs_of(res@) == seqs_of(v@).take(i as int),
        decreases v.len() - i,
    {
        let s = string_of(&v[i]);
        let ghost before = res@;
        res.push(s);
        proof {
            assert(res@ == before.push(s));
            assert(strs_of(res@) =~= strs_of(before).push(s@));
            assert(seqs_of(v@).take(i + 1) =~= seqs_of(v@).take(i as int).push(v@[i as int]@));
        }
        i += 1;
    }
    assert(seqs_of(v@).take(v.len() as int) =~= seqs_of(v@));
    res
}

// ---------------------------------------------------------------------------
// Numbers
// ---------------------------------------------------------------------------

pub open spec fn digit_char(d: nat) -> char {
    (d + 48) as char
}

/// Decimal notation of `n`, as `Display` for unsigned integers writes it.
pub open spec fn decimal(n: nat) -> Seq<char>
    decreases n,
{
    if n < 10 {
        seq![digit_char(n)]
    } else {
        decimal(n / 10).push(digit_char(n % 10))
    }
}

fn digit_to_char(d: usize) -> (c: char)
    requires
        d < 10,
    ensures
        c == digit_char(d as nat),
{
    let b: u8 = 48 + d as u8;
    b as char
}

/// Appends the decimal notation of `n`.
pub fn push_decimal(out: &mut Vec<char>, n: usize)
    ensures
        final(out)@ == old(out)@ + decimal(n as nat),
    decreases n,
{
    if n >= 10 {
        push_decimal(out, n / 10);
    }
    out.push(digit_to_char(n % 10));
    assert(out@ =~= old(out)@ + decimal(n as nat));
}

pub open spec fn digit_value(c: char) -> int {
    c as u32 - '0' as u32
}

/// The number that a string of decimal digits denotes.
pub open spec fn digits_value(d: Seq<char>) -> int
    decreases d.len(),
{
    if d.len() == 0 {
        0
    } else {
        digits_value(d.drop_last()) * 10 + digit_value(d.last())
    }
}

pub open spec fn all_digits(d: Seq<char>) -> bool {
    forall|i: int| 0 <= i < d.len() ==> is_ascii_digit(#[trigger] d[i])
}

pub proof fn lemma_digits_value_nonneg(d: Seq<char>)
    requires
        all_digits(d),
    ensures
        digits_value(d) >= 0,
    decreases d.len(),
{
    if d.len() > 0 {
        assert(is_ascii_digit(d[d.len() - 1]));
        lemma_digits_value_nonneg(d.drop_last());
    }
}

pub proof fn lemma_digits_value_prefix(d: Seq<char>, i: int, j: int)
    requires
        all_digits(d),
        0 <= i <= j <= d.len(),
    ensures
        digits_value(d.take(i)) <= digits_value(d.take(j)),
    decreases j - i,
{
    if i < j {
        lemma_digits_value_prefix(d, i, j - 1);
        let t = d.take(j);
        assert(t.drop_last() =~= d.take(j - 1));
        assert(is_ascii_digit(d[j - 1]));
        assert(t.last() == d[j - 1]);
        assert(all_digits(d.take(j - 1)));
        lemma_digits_value_nonneg(d.take(j - 1));
    }
}

/// The value of the digit string `d[lo..hi]`, or `None` when it exceeds `cap`.
fn digits_value_capped(d: &Vec<char>, lo: usize, hi: usize, cap: u128) -> (res: Option<u128>)
    requires
        lo <= hi <= d.len(),
        all_digits(d@.subrange(lo as int, hi as int)),
        cap <= u64::MAX,
    ensures
        match res {
            Some(v) => v == digits_value(d@.subrange(lo as int, hi as int)) && v <= cap,
            None => digits_value(d@.subrange(lo as int, hi as int)) > cap,
        },
{
    let ghost t = d@.subrange(lo as int, hi as int);
    let mut v: u128 = 0;
    let mut i = lo;
    assert(t.take(0) =~= Seq::<char>::empty());
    while i < hi
        invariant
            lo <= i <= hi <= d.len(),
            t == d@.subrange(lo as int, hi as int),
            all_digits(t),
            cap <= u64::MAX,
            v == digits_value(t.take(i - lo)),
            v <= cap,
        decreases hi - i,
    {
        let c = d[i];
        assert(c == t[i - lo]);
        assert(is_ascii_digit(t[i - lo]));
        let dv = (c as u32 - '0' as u32) as u128;
        let nv = v * 10 + dv;
        proof {
            assert(t.take(i - lo + 1).drop_last() =~= t.take(i - lo));
            assert(t.take(i - lo + 1).last() == c);
        }
        if nv > cap {
            proof {
                lemma_digits_value_prefix(t, i - lo + 1, t.len() as int);
                assert(t.take(t.len() as int) =~= t);
            }
            return None;
        }
        v = nv;
        i += 1;
    }
    assert(t.take(hi - lo) =~= t);
    Some(v)
}

/// `usize::from_str` of a string of ASCII digits, with 0 where it fails (empty or too large).
pub open spec fn step_number(d: Seq<char>) -> usize {
    if d.len() > 0 && digits_value(d) <= usize::MAX {
        digits_value(d) as usize
    } else {
        0
    }
}

pub fn parse_step_number(d: &Vec<char>) -> (res: usize)
    requires
        all_digits(d@),
    ensures
        res == step_number(d@),
{
    assert(d@.subrange(0, d@.len() as int) =~= d@);
    if d.len() == 0 {
        return 0;
    }
    match digits_value_capped(d, 0, d.len(), usize::MAX as u128) {
        Some(v) => v as usize,
        None => 0,
    }
}

/// `i32::from_str`: an optional sign, then at least one ASCII digit, within range.
pub open spec fn parse_i32(s: Seq<char>) -> Option<i32> {
    let neg = s.len() > 0 && s[0] == '-';
    let d = if s.len() > 0 && (s[0] == '-' || s[0] == '+') {
        s.drop_first()
    } else {
        s
    };
    let v = if neg {
        -digits_value(d)
    } else {
        digits_value(d)
    };
    if d.len() > 0 && all_digits(d) && i32::MIN <= v <= i32::MAX {
        Some(v as i32)
    } else {
        None
    }
}

pub fn parse_i32_chars(s: &Vec<char>) -> (res: Option<i32>)
    ensures
        res == parse_i32(s@),
{
    let neg = s.len() > 0 && s[0] == '-';
    let lo: usize = if s.len() > 0 && (s[0] == '-' || s[0] == '+') {
        1
    } else {
        0
    };
    let ghost d = if s@.len() > 0 && (s@[0] == '-' || s@[0] == '+') {
        s@.drop_first()
    } else {
        s@
    };
    assert(d =~= s@.subrange(lo as int, s@.len() as int));
    if lo == s.len() {
        return None;
    }
    let mut i = lo;
    while i < s.len()
        invariant
            lo <= i <= s.len(),
            d == s@.subrange(lo as int, s@.len() as int),
            d == (if s@.len() > 0 && (s@[0] == '-' || s@[0] == '+') {
                s@.drop_first()
            } else {
                s@
            }),
            forall|j: int| lo <= j < i ==> is_ascii_digit(#[trigger] s@[j]),
        decreases s.len() - i,
    {
        if !is_digit(s[i]) {
            assert(d[i - lo] == s@[i as int]);
            assert(!all_digits(d));
            return None;
        }
        i += 1;
    }
    assert forall|j: int| 0 <= j < d.len() implies is_ascii_digit(#[trigger] d[j]) by {
        assert(d[j] == s@[lo + j]);
    }
    match digits_value_capped(s, lo, s.len(), 2147483648) {
        Some(v) => {
            if neg {
                let r: i64 = 0 - (v as i64);
                Some(r as i32)
            } else if v <= 2147483647 {
                Some(v as i32)
            } else {
                None
            }
        },
        None => None,
    }
}

// ---------------------------------------------------------------------------
// Padding
// ---------------------------------------------------------------------------

pub open spec fn spaces(n: int) -> Seq<char> {
    Seq::new(if n > 0 { n as nat } else { 0 }, |i: int| ' ')
}

/// `format!("{:<w$}", s)`: `s` padded with spaces on the right to `w` characters.
pub open spec fn pad_right(s: Seq<char>, w: nat) -> Seq<char> {
    s + spaces(w - s.len())
}

pub fn push_padded(out: &mut Vec<char>, s: &Vec<char>, w: usize)
    ensures
        final(out)@ == old(out)@ + pad_right(s@, w as nat),
{
    append(out, s);
    let mut k = s.len();
    let ghost base = out@;
    while k < w
        invariant
            s.len() <= k <= (if w > s.len() { w } else { s.len() }),
            out@ == base + spaces(k - s.len()),
        decreases w - k,
    {
        out.push(' ');
        k += 1;
        assert(out@ =~= base + spaces(k - s.len()));
    }
    assert(out@ =~= old(out)@ + pad_right(s@, w as nat));
}

// ---------------------------------------------------------------------------
// Case mapping (std, Unicode tables)
// ---------------------------------------------------------------------------

/// What `str::to_lowercase` returns for a string: its Unicode lowercase mapping.
pub uninterp spec fn lowercase(s: Seq<char>) -> Seq<char>;

/// What `str::to_uppercase` returns for a string: its Unicode uppercase mapping.
pub uninterp spec fn uppercase(s: Seq<char>) -> Seq<char>;

/// `str::to_lowercase`; the result is the named mapping `lowercase` of the argument.
#[verifier::external_body]
fn to_lowercase(s: &str) -> (res: String)
    ensures
        res@ == lowercase(s@),
{
    s.to_lowercase()
}

/// `str::to_uppercase`; the result is the named mapping `uppercase` of the argument.
#[verifier::external_body]
fn to_uppercase(s: &str) -> (res: String)
    ensures
        res@ == uppercase(s@),
{
    s.to_uppercase()
}

/// Lowercase mapping of a character vector.
pub fn lowercase_chars(s: &Vec<char>) -> (res: Vec<char>)
    ensures
        res@ == lowercase(s@),
{
    let st = string_of(s);
    let l = to_lowercase(st.as_str());
    chars_of(l.as_str())
}

/// Uppercase mapping of a character vector.
pub fn uppercase_chars(s: &Vec<char>) -> (res: Vec<char>)
    ensures
        res@ == uppercase(s@),
{
    let st = string_of(s);
    let u = to_uppercase(st.as_str());
    chars_of(u.as_str())
}

/// The characters of each string.
pub fn chars_list(v: &Vec<String>) -> (res: Vec<Vec<char>>)
    ensures
        seqs_of(res@) == strs_of(v@),
{
    let mut res: Vec<Vec<char>> = Vec::new();
    let mut i: usize = 0;
    while i < v.len()
        invariant
            i <= v.len(),
            seqs_of(res@) == strs_of(v@).take(i as int),
        decreases v.len() - i,
    {
        let ghost before = res@;
        res.push(chars_of(v[i].as_str()));
        assert(seqs_of(res@) =~= seqs_of(before).push(v@[i as int]@));
        assert(strs_of(v@).take(i + 1) =~= strs_of(v@).take(i as int).push(v@[i as int]@));
        i += 1;
    }
    assert(strs_of(v@).take(v.len() as int) =~= strs_of(v@));
    res
}

} // verus!
