//! Searching a bibliography: query parsing, per-term matching and ranking.
pub mod matcher;

use vstd::prelude::*;

use crate::config::SearchConfig;
use crate::domain::{Bibliography, Entry, EntryId};
use crate::sorting::{
    lemma_stable_sort_perm, lemma_stable_sort_sorted, sort_by_le, stable_sort,
};
use crate::text::{
    chars_of, is_ascii_digit, is_ascii_digit_char, is_ws, is_ws_char, lemma_lex_order_antisym,
    lemma_lex_order_range, lemma_lex_order_trans, lex_order, lex_order_exec, slice_range,
    string_of, trim, trim_bounds, trim_chars,
};
use self::matcher::{char_is_uppercase, is_uppercase_char, pattern_score, pattern_score_of, space_runs, space_runs_exec};

verus! {

/// A parsed search query: all of its terms must match.
#[derive(Debug, Clone, PartialEq, Eq, Default)]
pub struct Query {
    pub terms: Vec<QueryTerm>,
}

/// One term of a query: text searched in the entry's main fields, or text
/// searched in one named field (`@field: text`).
#[derive(Debug, Clone, PartialEq, Eq)]
pub enum QueryTerm {
    Plain(String),
    Field { field: String, text: String },
}

/// Whether matching respects case.
#[derive(Debug, Clone, Copy, PartialEq, Eq, Structural)]
pub enum CaseSensitivity {
    Sensitive,
    Insensitive,
}

/// An entry that matched, with its relevance score.
#[derive(Debug, Clone, PartialEq, Eq)]
pub struct SearchResult {
    pub entry_id: EntryId,
    pub score: u32,
}

/// Searches bibliographies with fixed settings.
#[derive(Debug, Clone)]
pub struct SearchEngine {
    config: SearchConfig,
}

/// The abstract form of a query term.
pub enum TermView {
    Plain(Seq<char>),
    Field(Seq<char>, Seq<char>),
}

impl View for QueryTerm {
    type V = TermView;

    open spec fn view(&self) -> TermView {
        match self {
            QueryTerm::Plain(t) => TermView::Plain(t@),
            QueryTerm::Field { field, text } => TermView::Field(field@, text@),
        }
    }
}

/// The terms of a query in abstract form.
pub open spec fn terms_view(ts: Seq<QueryTerm>) -> Seq<TermView> {
    ts.map_values(|t: QueryTerm| t@)
}

// ---------------------------------------------------------------------------
// Field qualifiers: `@name:` at the start of the query or after whitespace.
// ---------------------------------------------------------------------------

/// A character that may start a field name.
pub open spec fn is_name_start(c: char) -> bool {
    'a' <= c && c <= 'z'
}

/// A character that may continue a field name.
pub open spec fn is_name_char(c: char) -> bool {
    is_name_start(c) || is_ascii_digit(c) || c == '_' || c == '-'
}

/// The end of the run of name characters of `t` that starts at `i`.
pub open spec fn name_run_end(t: Seq<char>, i: int) -> int
    decreases t.len() - i,
{
    if 0 <= i < t.len() && is_name_char(t[i]) {
        name_run_end(t, i + 1)
    } else {
        i
    }
}

/// Where the text after a qualifier `@name:` that begins at `a` starts.
pub open spec fn qualifier_at(t: Seq<char>, a: int) -> Option<int> {
    if 0 <= a && a + 1 < t.len() && t[a] == '@' && is_name_start(t[a + 1]) {
        let e = name_run_end(t, a + 2);
        if e < t.len() && t[e] == ':' {
            Some(e + 1)
        } else {
            None
        }
    } else {
        None
    }
}

/// A qualifier match that begins at `s`: at the very start of the text, or
/// after one whitespace character. Gives the qualifier's position and the
/// position after its colon.
pub open spec fn match_at(t: Seq<char>, s: int) -> Option<(int, int)> {
    if s == 0 && qualifier_at(t, 0) is Some {
        Some((0, qualifier_at(t, 0)->Some_0))
    } else if 0 <= s < t.len() && is_ws(t[s]) && qualifier_at(t, s + 1) is Some {
        Some((s + 1, qualifier_at(t, s + 1)->Some_0))
    } else {
        None
    }
}

/// The first position at or after `p` where a qualifier match begins.
pub open spec fn first_match_from(t: Seq<char>, p: int) -> Option<int>
    decreases t.len() + 1 - p,
{
    if p < 0 || p > t.len() {
        None
    } else if match_at(t, p) is Some {
        Some(p)
    } else {
        first_match_from(t, p + 1)
    }
}

/// The qualifiers of `t` from position `p` on, left to right, without
/// overlap: each as (position of `@`, position after the colon).
pub open spec fn spans_from(t: Seq<char>, p: int) -> Seq<(int, int)>
    decreases t.len() + 1 - p,
{
    if p < 0 || p > t.len() {
        Seq::empty()
    } else {
        match first_match_from(t, p) {
            None => Seq::empty(),
            Some(s) => {
                let m = match_at(t, s)->Some_0;
                if p < m.1 <= t.len() {
                    seq![m] + spans_from(t, m.1)
                } else {
                    Seq::empty()
                }
            },
        }
    }
}

/// `trim(s)`, unless it is empty.
pub open spec fn trimmed(s: Seq<char>) -> Option<Seq<char>> {
    if trim(s).len() > 0 {
        Some(trim(s))
    } else {
        None
    }
}

/// The field term of the `i`-th qualifier: its name and the trimmed text up
/// to the next qualifier (none when that text is blank).
pub open spec fn field_term(t: Seq<char>, spans: Seq<(int, int)>, i: int) -> Seq<TermView> {
    let end = if i + 1 < spans.len() {
        spans[i + 1].0
    } else {
        t.len() as int
    };
    let name = t.subrange(spans[i].0 + 1, spans[i].1 - 1);
    match trimmed(t.subrange(spans[i].1, end)) {
        Some(x) => seq![TermView::Field(name, x)],
        None => Seq::empty(),
    }
}

/// The field terms of the first `n` qualifiers.
pub open spec fn field_terms(t: Seq<char>, spans: Seq<(int, int)>, n: int) -> Seq<TermView>
    decreases n,
{
    if n <= 0 {
        Seq::empty()
    } else {
        field_terms(t, spans, n - 1) + field_term(t, spans, n - 1)
    }
}

/// A plain term for `s`, unless it is blank.
pub open spec fn plain_term(s: Seq<char>) -> Seq<TermView> {
    match trimmed(s) {
        Some(x) => seq![TermView::Plain(x)],
        None => Seq::empty(),
    }
}

/// The terms of the query text `t`: without qualifiers, the whole trimmed
/// text as one plain term; otherwise the text before the first qualifier
/// as a plain term, then one field term per qualifier.
pub open spec fn parse_terms(t: Seq<char>) -> Seq<TermView> {
    let spans = spans_from(t, 0);
    if spans.len() == 0 {
        plain_term(t)
    } else {
        plain_term(t.subrange(0, spans[0].0)) + field_terms(t, spans, spans.len() as int)
    }
}

proof fn lemma_name_run_end(t: Seq<char>, i: int)
    requires
        0 <= i <= t.len(),
    ensures
        i <= name_run_end(t, i) <= t.len(),
    decreases t.len() - i,
{
    if i < t.len() && is_name_char(t[i]) {
        lemma_name_run_end(t, i + 1);
    }
}

fn is_name_char_exec(c: char) -> (r: bool)
    ensures
        r == is_name_char(c),
{
    ('a' <= c && c <= 'z') || is_ascii_digit_char(c) || c == '_' || c == '-'
}

fn qualifier_at_exec(t: &[char], a: usize) -> (r: Option<usize>)
    requires
        a <= t.len(),
    ensures
        r matches Some(e) ==> qualifier_at(t@, a as int) == Some(e as int) && e <= t.len(),
        r is None ==> qualifier_at(t@, a as int) is None,
{
    if a < t.len() && t.len() - a > 1 && t[a] == '@' && 'a' <= t[a + 1] && t[a + 1] <= 'z' {
        let mut e = a + 2;
        while e < t.len() && is_name_char_exec(t[e])
            invariant
                a + 2 <= e <= t.len(),
                name_run_end(t@, a + 2) == name_run_end(t@, e as int),
            decreases t.len() - e,
        {
            e += 1;
        }
        if e < t.len() && t[e] == ':' {
            Some(e + 1)
        } else {
            None
        }
    } else {
        None
    }
}

fn match_at_exec(t: &[char], s: usize) -> (r: Option<(usize, usize)>)
    requires
        s <= t.len(),
    ensures
        r matches Some(m) ==> match_at(t@, s as int) == Some((m.0 as int, m.1 as int)) && m.1
            <= t.len(),
        r is None ==> match_at(t@, s as int) is None,
{
    if s == 0 {
        if let Some(e) = qualifier_at_exec(t, 0) {
            return Some((0, e));
        }
    }
    if s < t.len() && is_ws_char(t[s]) {
        if let Some(e) = qualifier_at_exec(t, s + 1) {
            return Some((s + 1, e));
        }
    }
    None
}

proof fn lemma_match_at(t: Seq<char>, s: int)
    requires
        match_at(t, s) is Some,
    ensures
        s < match_at(t, s)->Some_0.0 + 1 < match_at(t, s)->Some_0.1 <= t.len()
            || (s == 0 && match_at(t, s)->Some_0.0 == 0 && 1 < match_at(t, s)->Some_0.1 <= t.len()),
        t[match_at(t, s)->Some_0.0] == '@',
        t[match_at(t, s)->Some_0.1 - 1] == ':',
{
    let a = match_at(t, s)->Some_0.0;
    lemma_name_run_end(t, a + 2);
}

proof fn lemma_first_match_from(t: Seq<char>, p: int)
    requires
        0 <= p,
    ensures
        first_match_from(t, p) matches Some(s) ==> p <= s <= t.len() && match_at(t, s) is Some
            && forall|k: int| p <= k < s ==> match_at(t, k) is None,
        first_match_from(t, p) is None ==> forall|k: int| p <= k <= t.len() ==> match_at(t, k) is None,
    decreases t.len() + 1 - p,
{
    if p <= t.len() && match_at(t, p) is None {
        lemma_first_match_from(t, p + 1);
    }
}

/// The first qualifier match at or after `p`.
fn first_match_exec(t: &[char], p: usize) -> (r: Option<(usize, usize)>)
    requires
        p <= t.len(),
    ensures
        match first_match_from(t@, p as int) {
            None => r is None,
            Some(s) => r matches Some(m) && match_at(t@, s) == Some((m.0 as int, m.1 as int))
                && m.1 <= t.len(),
        },
{
    let mut s = p;
    while s < t.len()
        invariant
            p <= s <= t.len(),
            first_match_from(t@, p as int) == first_match_from(t@, s as int),
        decreases t.len() - s,
    {
        if let Some(m) = match_at_exec(t, s) {
            return Some(m);
        }
        s += 1;
    }
    assert(match_at(t@, s as int) is None);
    assert(first_match_from(t@, s + 1) is None);
    None
}

/// A qualifier occurrence: where its `@` is, where its text begins, and the
/// field it names.
struct QualifierSpan {
    start: usize,
    text_start: usize,
    field: String,
}

/// The qualifiers of `input`, left to right.
fn qualifier_spans(input: &[char]) -> (r: Vec<QualifierSpan>)
    ensures
        r@.len() == spans_from(input@, 0).len(),
        forall|i: int|
            0 <= i < r@.len() ==> {
                &&& (#[trigger] r@[i]).start == spans_from(input@, 0)[i].0
                &&& r@[i].text_start == spans_from(input@, 0)[i].1
                &&& r@[i].start + 1 < r@[i].text_start <= input@.len()
                &&& r@[i].field@ == input@.subrange(r@[i].start + 1, r@[i].text_start - 1)
            },
{
    let mut out: Vec<QualifierSpan> = Vec::new();
    let mut p: usize = 0;
    let ghost all = spans_from(input@, 0);
    proof {
        assert(all.skip(0) =~= all);
    }
    loop
        invariant
            p <= input@.len(),
            all == spans_from(input@, 0),
            out@.len() <= all.len(),
            spans_from(input@, p as int) == all.skip(out@.len() as int),
            forall|i: int|
                0 <= i < out@.len() ==> {
                    &&& (#[trigger] out@[i]).start == all[i].0
                    &&& out@[i].text_start == all[i].1
                    &&& out@[i].start + 1 < out@[i].text_start <= input@.len()
                    &&& out@[i].field@ == input@.subrange(out@[i].start + 1, out@[i].text_start - 1)
                },
        decreases input@.len() + 1 - p,
    {
        let found = first_match_exec(input, p);
        match found {
            None => {
                assert(spans_from(input@, p as int) =~= Seq::<(int, int)>::empty());
                assert(out@.len() == all.len()) by {
                    assert(all.skip(out@.len() as int).len() == 0);
                }
                return out;
            },
            Some(m) => {
                proof {
                    let s = first_match_from(input@, p as int)->Some_0;
                    lemma_first_match_from(input@, p as int);
                    lemma_match_at(input@, s);
                }
                let field = string_of(&slice_range(input, m.0 + 1, m.1 - 1));
                assert(spans_from(input@, p as int)[0] == (m.0 as int, m.1 as int));
                assert(spans_from(input@, p as int).drop_first() == spans_from(input@, m.1 as int));
                assert(all.skip(out@.len() + 1int) =~= all.skip(out@.len() as int).drop_first());
                out.push(QualifierSpan { start: m.0, text_start: m.1, field });
                p = m.1;
            },
        }
    }
}

/// `trim(s[a..b])` unless blank.
fn trimmed_range(s: &[char], a: usize, b: usize) -> (r: Option<String>)
    requires
        a <= b <= s.len(),
    ensures
        r matches Some(x) ==> trimmed(s@.subrange(a as int, b as int)) == Some(x@),
        r is None ==> trimmed(s@.subrange(a as int, b as int)) is None,
{
    let (x, y) = trim_bounds(s, a, b);
    if x < y {
        Some(string_of(&slice_range(s, x, y)))
    } else {
        None
    }
}

impl Query {
    /// Parses the query text `input` into terms. `@name:` at the start or
    /// after whitespace begins a field term for `name` (lower-case letters,
    /// then letters, digits, `_` or `-`) that runs to the next qualifier;
    /// text before the first qualifier, or the whole text when there is
    /// none, is a plain term. Blank terms are dropped.
    pub fn parse(input: &str) -> (r: Query)
        ensures
            terms_view(r.terms@) == parse_terms(input@),
    {
        let t = chars_of(input);
        let spans = qualifier_spans(&t);
        let ghost sv = spans_from(t@, 0);
        let mut terms: Vec<QueryTerm> = Vec::new();
        if spans.len() == 0 {
            if let Some(text) = trimmed_range(&t, 0, t.len()) {
                terms.push(QueryTerm::Plain(text));
            }
            assert(t@.subrange(0, t@.len() as int) =~= t@);
            assert(terms_view(terms@) =~= parse_terms(input@));
            return Query { terms };
        }
        if let Some(text) = trimmed_range(&t, 0, spans[0].start) {
            terms.push(QueryTerm::Plain(text));
        }
        let ghost lead = plain_term(t@.subrange(0, sv[0].0));
        assert(terms_view(terms@) =~= lead);
        let mut i: usize = 0;
        while i < spans.len()
            invariant
                i <= spans@.len(),
                sv == spans_from(t@, 0),
                spans@.len() == sv.len(),
                sv.len() > 0,
                forall|k: int|
                    0 <= k < spans@.len() ==> {
                        &&& (#[trigger] spans@[k]).start == sv[k].0
                        &&& spans@[k].text_start == sv[k].1
                        &&& spans@[k].start + 1 < spans@[k].text_start <= t@.len()
                        &&& spans@[k].field@ == t@.subrange(spans@[k].start + 1, spans@[k].text_start - 1)
                    },
                terms_view(terms@) == lead + field_terms(t@, sv, i as int),
            decreases spans.len() - i,
        {
            let end = if i + 1 < spans.len() {
                spans[i + 1].start
            } else {
                t.len()
            };
            proof {
                if i + 1 < spans@.len() {
                    lemma_spans_ordered(t@, i as int);
                }
            }
            let ghost before = terms@;
            if let Some(text) = trimmed_range(&t, spans[i].text_start, end) {
                let field = spans[i].field.clone();
                terms.push(QueryTerm::Field { field, text });
            }
            assert(terms_view(terms@) =~= terms_view(before) + field_term(t@, sv, i as int));
            i += 1;
        }
        Query { terms }
    }
}

/// Consecutive qualifiers do not overlap.
proof fn lemma_spans_ordered(t: Seq<char>, i: int)
    requires
        0 <= i,
        i + 1 < spans_from(t, 0).len(),
    ensures
        spans_from(t, 0)[i].1 <= spans_from(t, 0)[i + 1].0,
{
    lemma_spans_from_ordered(t, 0, i);
}

proof fn lemma_spans_from_ordered(t: Seq<char>, p: int, i: int)
    requires
        0 <= p,
        0 <= i,
        i + 1 < spans_from(t, p).len(),
    ensures
        spans_from(t, p)[i].1 <= spans_from(t, p)[i + 1].0,
    decreases t.len() + 1 - p,
{
    let s = first_match_from(t, p)->Some_0;
    let m = match_at(t, s)->Some_0;
    if i == 0 {
        let rest = spans_from(t, m.1);
        assert(rest.len() > 0);
        let s2 = first_match_from(t, m.1)->Some_0;
        lemma_first_match_from(t, m.1);
        assert(rest[0] == match_at(t, s2)->Some_0);
        lemma_match_at(t, s2);
    } else {
        lemma_spans_from_ordered(t, m.1, i - 1);
    }
}

// ---------------------------------------------------------------------------
// Matching and ranking.
// ---------------------------------------------------------------------------

/// Whether some character of `s` is upper case.
pub open spec fn has_uppercase(s: Seq<char>) -> bool {
    exists|i: int| 0 <= i < s.len() && is_uppercase_char(#[trigger] s[i])
}

/// Matching respects case exactly when the query has an upper-case letter.
pub fn smart_case(query: &str) -> (r: CaseSensitivity)
    ensures
        r == (if has_uppercase(query@) {
            CaseSensitivity::Sensitive
        } else {
            CaseSensitivity::Insensitive
        }),
{
    let cs = chars_of(query);
    let mut i: usize = 0;
    while i < cs.len()
        invariant
            i <= cs@.len(),
            cs@ == query@,
            forall|k: int| 0 <= k < i ==> !is_uppercase_char(#[trigger] cs@[k]),
        decreases cs.len() - i,
    {
        if char_is_uppercase(cs[i]) {
            return CaseSensitivity::Sensitive;
        }
        i += 1;
    }
    CaseSensitivity::Insensitive
}

/// The names of the fields searched by plain terms, in order.
pub open spec fn plain_field_names() -> Seq<Seq<char>> {
    seq![
        seq!['a', 'u', 't', 'h', 'o', 'r'],
        seq!['t', 'i', 't', 'l', 'e'],
        seq!['y', 'e', 'a', 'r'],
        seq!['j', 'o', 'u', 'r', 'n', 'a', 'l'],
        seq!['a', 'b', 's', 't', 'r', 'a', 'c', 't'],
    ]
}

/// The values of the first `n` plain-search fields that `e` has.
pub open spec fn plain_values(e: Entry, n: int) -> Seq<Seq<char>>
    decreases n,
{
    if n <= 0 {
        Seq::empty()
    } else {
        plain_values(e, n - 1) + match e.field(plain_field_names()[n - 1]) {
            Some(v) => seq![v],
            None => Seq::empty(),
        }
    }
}

/// The parts of `parts` joined with single spaces.
pub open spec fn join_spaces(parts: Seq<Seq<char>>) -> Seq<char>
    decreases parts.len(),
{
    if parts.len() == 0 {
        Seq::empty()
    } else if parts.len() == 1 {
        parts[0]
    } else {
        join_spaces(parts.drop_last()) + seq![' '] + parts.last()
    }
}

/// The text that plain terms are matched against: author, title, year,
/// journal and abstract, those present, joined with spaces.
pub open spec fn plain_text(e: Entry) -> Seq<char> {
    join_spaces(plain_values(e, 5))
}

/// The text that plain terms are matched against.
fn plain_search_text(entry: &Entry) -> (r: String)
    ensures
        r@ == plain_text(*entry),
{
    let names: [&str; 5] = ["author", "title", "year", "journal", "abstract"];
    proof {
        reveal_strlit("author");
        reveal_strlit("title");
        reveal_strlit("year");
        reveal_strlit("journal");
        reveal_strlit("abstract");
        assert(names@[0]@ =~= plain_field_names()[0]);
        assert(names@[1]@ =~= plain_field_names()[1]);
        assert(names@[2]@ =~= plain_field_names()[2]);
        assert(names@[3]@ =~= plain_field_names()[3]);
        assert(names@[4]@ =~= plain_field_names()[4]);
    }
    let mut out = String::new();
    let mut count: usize = 0;
    let mut i: usize = 0;
    while i < 5
        invariant
            i <= 5,
            forall|k: int| 0 <= k < 5 ==> (#[trigger] names@[k])@ == plain_field_names()[k],
            count == plain_values(*entry, i as int).len(),
            count <= i,
            out@ == join_spaces(plain_values(*entry, i as int)),
        decreases 5 - i,
    {
        let ghost before = plain_values(*entry, i as int);
        match entry.get_field(names[i]) {
            Some(v) => {
                if count > 0 {
                    out.append(" ");
                }
                out.append(v);
                count += 1;
                proof {
                    reveal_strlit(" ");
                    let now = before + seq![v@];
                    assert(now.drop_last() =~= before);
                    if before.len() == 0 {
                        assert(now =~= seq![v@]);
                    }
                }
            },
            None => {
                assert(before + Seq::<Seq<char>>::empty() =~= before);
            },
        }
        i += 1;
    }
    out
}

/// The score of the needle `n` in the haystack `h`: a blank needle matches
/// with score 0; otherwise the matcher decides, respecting case when smart
/// case is on and `n` has an upper-case letter.
pub open spec fn term_match(h: Seq<char>, n: Seq<char>, smart: bool, fuzzy: bool) -> Option<u32> {
    if trim(n).len() == 0 {
        Some(0)
    } else {
        pattern_score_of(h, n, smart && has_uppercase(n), fuzzy)
    }
}

/// The score of the term `t` for the entry `e`; a field term fails when the
/// entry lacks the field.
pub open spec fn term_score(e: Entry, t: TermView, smart: bool, fuzzy: bool) -> Option<u32> {
    match t {
        TermView::Plain(text) => term_match(plain_text(e), text, smart, fuzzy),
        TermView::Field(field, text) => match e.field(field) {
            Some(v) => term_match(v, text, smart, fuzzy),
            None => None,
        },
    }
}

/// `a + b`, or `u32::MAX` when that does not fit.
pub open spec fn saturating_sum(a: u32, b: u32) -> u32 {
    if a + b > u32::MAX {
        u32::MAX
    } else {
        (a + b) as u32
    }
}

/// The combined score of the first `n` terms: every one must match; their
/// scores add up.
pub open spec fn entry_score(e: Entry, ts: Seq<TermView>, n: int, smart: bool, fuzzy: bool) -> Option<
    u32,
>
    decreases n,
{
    if n <= 0 {
        Some(0)
    } else {
        match entry_score(e, ts, n - 1, smart, fuzzy) {
            None => None,
            Some(acc) => match term_score(e, ts[n - 1], smart, fuzzy) {
                None => None,
                Some(s) => Some(saturating_sum(acc, s)),
            },
        }
    }
}

/// The matching entries among the first `n` of `es`, in order, with their
/// scores.
pub open spec fn matches_of(es: Seq<Entry>, ts: Seq<TermView>, n: int, smart: bool, fuzzy: bool) -> Seq<
    (Seq<char>, u32),
>
    decreases n,
{
    if n <= 0 {
        Seq::empty()
    } else {
        matches_of(es, ts, n - 1, smart, fuzzy) + match entry_score(
            es[n - 1],
            ts,
            ts.len() as int,
            smart,
            fuzzy,
        ) {
            Some(s) => seq![(es[n - 1].id.0@, s)],
            None => Seq::empty(),
        }
    }
}

/// Ranking order: higher score first, then citation key.
pub open spec fn result_le(a: (Seq<char>, u32), b: (Seq<char>, u32)) -> bool {
    a.1 > b.1 || (a.1 == b.1 && lex_order(a.0, b.0) <= 0)
}

/// The abstract form of a list of results.
pub open spec fn results_view(rs: Seq<SearchResult>) -> Seq<(Seq<char>, u32)> {
    rs.map_values(|r: SearchResult| (r.entry_id.0@, r.score))
}

/// The ranking relation as a spec function.
pub open spec fn ranking() -> spec_fn((Seq<char>, u32), (Seq<char>, u32)) -> bool {
    |a: (Seq<char>, u32), b: (Seq<char>, u32)| result_le(a, b)
}

/// What searching the entries `es` for the terms `ts` yields: the entries
/// every term matches, ranked.
pub open spec fn search_outcome(es: Seq<Entry>, ts: Seq<TermView>, smart: bool, fuzzy: bool) -> Seq<
    (Seq<char>, u32),
> {
    stable_sort(matches_of(es, ts, es.len() as int, smart, fuzzy), ranking())
}

fn result_leq(a: &SearchResult, b: &SearchResult) -> (o: bool)
    ensures
        o == result_le((a.entry_id.0@, a.score), (b.entry_id.0@, b.score)),
{
    a.score > b.score || (a.score == b.score && lex_order_exec(
        &chars_of(a.entry_id.0.as_str()),
        &chars_of(b.entry_id.0.as_str()),
    ) <= 0)
}

/// Ranks `results` stably: higher score first, ties by citation key.
pub fn sort_results(results: Vec<SearchResult>) -> (r: Vec<SearchResult>)
    ensures
        results_view(r@) == stable_sort(results_view(results@), ranking()),
{
    let ghost f = |r: SearchResult| (r.entry_id.0@, r.score);
    let ghost le = |a: SearchResult, b: SearchResult| result_le(f(a), f(b));
    proof {
        crate::sorting::lemma_stable_sort_map(results@, f, le, ranking());
        assert(results_view(results@) =~= results@.map_values(f));
    }
    let r = sort_by_le(results, result_leq, Ghost(le));
    assert(results_view(r@) =~= r@.map_values(f));
    r
}

impl SearchEngine {
    /// An engine with the given settings.
    pub fn new(config: SearchConfig) -> (r: SearchEngine)
        ensures
            r.config() == config,
    {
        SearchEngine { config }
    }

    /// The engine's settings.
    pub closed spec fn config(&self) -> SearchConfig {
        self.config
    }

    /// Whether matching `query` respects case under these settings.
    fn case_sensitivity(&self, query: &str) -> (r: CaseSensitivity)
        ensures
            (r == CaseSensitivity::Sensitive) == (self.config.smart_case && has_uppercase(query@)),
    {
        if self.config.smart_case {
            smart_case(query)
        } else {
            CaseSensitivity::Insensitive
        }
    }

    /// The score of `needle` in `haystack`.
    fn match_term(&self, haystack: &str, needle: &str) -> (r: Option<u32>)
        requires
            haystack@.len() <= u32::MAX,
            space_runs(needle@) <= 65537,
        ensures
            r == term_match(haystack@, needle@, self.config.smart_case, self.config.fuzzy),
    {
        let t = trim_chars(&chars_of(needle));
        if t.len() == 0 {
            return Some(0);
        }
        let sensitive = match self.case_sensitivity(needle) {
            CaseSensitivity::Sensitive => true,
            CaseSensitivity::Insensitive => false,
        };
        pattern_score(haystack, needle, sensitive, self.config.fuzzy)
    }

    /// Searches `bibliography` for `query`: every term must match an entry;
    /// matching entries are ranked by total score, highest first, ties by
    /// citation key. A query without terms returns every entry with score 0.
    pub fn search(&self, bibliography: &Bibliography, query: &Query) -> (r: Vec<SearchResult>)
        requires
            bibliography.wf(),
            search_fits(bibliography.entries_view(), terms_view(query.terms@)),
        ensures
            results_view(r@) == search_outcome(
                bibliography.entries_view(),
                terms_view(query.terms@),
                self.config().smart_case,
                self.config().fuzzy,
            ),
    {
        let entries = bibliography.iter();
        let ghost ts = terms_view(query.terms@);
        let ghost smart = self.config.smart_case;
        let ghost fuzzy = self.config.fuzzy;
        let mut results: Vec<SearchResult> = Vec::new();
        let mut i: usize = 0;
        while i < entries.len()
            invariant
                i <= entries@.len(),
                entries@ == bibliography.entries_view(),
                ts == terms_view(query.terms@),
                smart == self.config.smart_case,
                fuzzy == self.config.fuzzy,
                search_fits(entries@, ts),
                results_view(results@) == matches_of(entries@, ts, i as int, smart, fuzzy),
            decreases entries.len() - i,
        {
            let entry = &entries[i];
            let score = self.entry_total(entry, query);
            let ghost before = results@;
            match score {
                Some(s) => {
                    results.push(SearchResult { entry_id: EntryId(entry.id.0.clone()), score: s });
                },
                None => {},
            }
            assert(results_view(results@) =~= matches_of(entries@, ts, i + 1, smart, fuzzy));
            i += 1;
        }
        sort_results(results)
    }

    /// Searches as `search` does when every text fits the matcher's limits
    /// (`search_fits`); otherwise `None`.
    pub fn search_checked(&self, bibliography: &Bibliography, query: &Query) -> (r: Option<
        Vec<SearchResult>,
    >)
        requires
            bibliography.wf(),
        ensures
            r is Some <==> search_fits(bibliography.entries_view(), terms_view(query.terms@)),
            r matches Some(v) ==> results_view(v@) == search_outcome(
                bibliography.entries_view(),
                terms_view(query.terms@),
                self.config().smart_case,
                self.config().fuzzy,
            ),
    {
        let entries = bibliography.iter();
        let ghost ts = terms_view(query.terms@);
        let mut i: usize = 0;
        while i < entries.len()
            invariant
                i <= entries@.len(),
                entries@ == bibliography.entries_view(),
                ts == terms_view(query.terms@),
                forall|k: int| 0 <= k < i ==> entry_fits(#[trigger] entries@[k], ts),
            decreases entries.len() - i,
        {
            if !entry_fits_exec(&entries[i], query) {
                return None;
            }
            i += 1;
        }
        Some(self.search(bibliography, query))
    }

    /// The combined score of all terms of `query` for `entry`.
    fn entry_total(&self, entry: &Entry, query: &Query) -> (r: Option<u32>)
        requires
            entry_fits(*entry, terms_view(query.terms@)),
        ensures
            r == entry_score(
                *entry,
                terms_view(query.terms@),
                query.terms@.len() as int,
                self.config.smart_case,
                self.config.fuzzy,
            ),
    {
        let ghost ts = terms_view(query.terms@);
        let mut total: u32 = 0;
        let mut j: usize = 0;
        while j < query.terms.len()
            invariant
                j <= query.terms@.len(),
                ts == terms_view(query.terms@),
                entry_fits(*entry, ts),
                entry_score(*entry, ts, j as int, self.config.smart_case, self.config.fuzzy) == Some(
                    total,
                ),
            decreases query.terms.len() - j,
        {
            assert(ts[j as int] == query.terms@[j as int]@);
            let s = match &query.terms[j] {
                QueryTerm::Plain(text) => {
                    let h = plain_search_text(entry);
                    self.match_term(h.as_str(), text.as_str())
                },
                QueryTerm::Field { field, text } => match entry.get_field(field.as_str()) {
                    Some(v) => self.match_term(v, text.as_str()),
                    None => None,
                },
            };
            match s {
                Some(s) => {
                    total = total.saturating_add(s);
                },
                None => {
                    proof {
                        lemma_entry_score_none_sticky(
                            *entry,
                            ts,
                            j + 1,
                            query.terms@.len() as int,
                            self.config.smart_case,
                            self.config.fuzzy,
                        );
                    }
                    return None;
                },
            }
            j += 1;
        }
        Some(total)
    }
}

/// The sizes for which matching cannot fail: every haystack fits the
/// matcher's `u32` positions and every needle has few enough words that the
/// matcher's score sum fits a `u32`.
pub open spec fn entry_fits(e: Entry, ts: Seq<TermView>) -> bool {
    &&& has_plain_term(ts) ==> plain_text(e).len() <= u32::MAX
    &&& forall|k: int|
        0 <= k < ts.len() ==> match #[trigger] ts[k] {
            TermView::Plain(text) => space_runs(text) <= 65537,
            TermView::Field(field, text) => space_runs(text) <= 65537 && match e.field(field) {
                Some(v) => v.len() <= u32::MAX,
                None => true,
            },
        }
}

/// Whether `v` occurs in `h` as a run of consecutive characters.
pub open spec fn occurs_in(v: Seq<char>, h: Seq<char>) -> bool {
    exists|p: int| 0 <= p && p + v.len() <= h.len() && #[trigger] h.subrange(p, p + v.len()) == v
}

proof fn lemma_join_spaces_contains(parts: Seq<Seq<char>>, k: int)
    requires
        0 <= k < parts.len(),
    ensures
        occurs_in(parts[k], join_spaces(parts)),
    decreases parts.len(),
{
    let j = join_spaces(parts);
    let v = parts[k];
    if parts.len() == 1 {
        let z: int = 0;
        assert(j.subrange(z, z + v.len()) =~= v);
        assert(z + v.len() <= j.len());
    } else {
        let pre = join_spaces(parts.drop_last());
        assert(j == pre + seq![' '] + parts.last());
        if k == parts.len() - 1 {
            let a: int = pre.len() as int + 1;
            assert(j.subrange(a, a + v.len()) =~= v);
            assert(a + v.len() <= j.len());
        } else {
            lemma_join_spaces_contains(parts.drop_last(), k);
            assert(parts.drop_last()[k] == v);
            let p = choose|p: int| 0 <= p && p + v.len() <= pre.len() && #[trigger] pre.subrange(p, p + v.len()) == v;
            assert(j.subrange(p, p + v.len()) =~= pre.subrange(p, p + v.len()));
            assert(j.subrange(p, p + v.len()) == v);
        }
    }
}

proof fn lemma_plain_values_has(e: Entry, n: int, i: int)
    requires
        0 <= i < n <= 5,
        e.field(plain_field_names()[i]) is Some,
    ensures
        plain_values(e, n).contains(e.field(plain_field_names()[i])->Some_0),
    decreases n,
{
    let v = e.field(plain_field_names()[i])->Some_0;
    let prev = plain_values(e, n - 1);
    let cur = plain_values(e, n);
    if i < n - 1 {
        lemma_plain_values_has(e, n - 1, i);
        let k = choose|k: int| 0 <= k < prev.len() && prev[k] == v;
        assert(cur[k] == prev[k]);
    } else {
        assert(cur[prev.len() as int] == v);
    }
}

proof fn lemma_plain_field_occurs(e: Entry, i: int)
    requires
        0 <= i < 5,
        e.field(plain_field_names()[i]) is Some,
    ensures
        occurs_in(e.field(plain_field_names()[i])->Some_0, plain_text(e)),
{
    let v = e.field(plain_field_names()[i])->Some_0;
    lemma_plain_values_has(e, 5, i);
    let parts = plain_values(e, 5);
    let k = choose|k: int| 0 <= k < parts.len() && parts[k] == v;
    lemma_join_spaces_contains(parts, k);
}

/// A plain term is matched against one text that holds, word for word, the
/// entry's author, title, year, journal and abstract (those it has): the
/// term's score for the entry is the matcher's score in that text.
pub proof fn lemma_plain_terms_see_all_fields(e: Entry, x: Seq<char>, smart: bool, fuzzy: bool)
    ensures
        term_score(e, TermView::Plain(x), smart, fuzzy) == term_match(plain_text(e), x, smart, fuzzy),
        e.field("author"@) matches Some(v) ==> occurs_in(v, plain_text(e)),
        e.field("title"@) matches Some(v) ==> occurs_in(v, plain_text(e)),
        e.field("year"@) matches Some(v) ==> occurs_in(v, plain_text(e)),
        e.field("journal"@) matches Some(v) ==> occurs_in(v, plain_text(e)),
        e.field("abstract"@) matches Some(v) ==> occurs_in(v, plain_text(e)),
{
    reveal_strlit("author");
    reveal_strlit("title");
    reveal_strlit("year");
    reveal_strlit("journal");
    reveal_strlit("abstract");
    assert("author"@ =~= plain_field_names()[0]);
    assert("title"@ =~= plain_field_names()[1]);
    assert("year"@ =~= plain_field_names()[2]);
    assert("journal"@ =~= plain_field_names()[3]);
    assert("abstract"@ =~= plain_field_names()[4]);
    if e.field("author"@) is Some {
        lemma_plain_field_occurs(e, 0);
    }
    if e.field("title"@) is Some {
        lemma_plain_field_occurs(e, 1);
    }
    if e.field("year"@) is Some {
        lemma_plain_field_occurs(e, 2);
    }
    if e.field("journal"@) is Some {
        lemma_plain_field_occurs(e, 3);
    }
    if e.field("abstract"@) is Some {
        lemma_plain_field_occurs(e, 4);
    }
}

/// Whether some term of `ts` is a plain one (matched against the entry's
/// whole searchable text).
pub open spec fn has_plain_term(ts: Seq<TermView>) -> bool {
    exists|k: int| 0 <= k < ts.len() && (#[trigger] ts[k]) is Plain
}

/// Whether `entry` fits the matcher's limits for the terms of `query`.
fn entry_fits_exec(entry: &Entry, query: &Query) -> (r: bool)
    ensures
        r == entry_fits(*entry, terms_view(query.terms@)),
{
    let ghost ts = terms_view(query.terms@);
    let mut plain = false;
    let mut j: usize = 0;
    while j < query.terms.len()
        invariant
            j <= query.terms@.len(),
            ts == terms_view(query.terms@),
            plain == exists|k: int| 0 <= k < j && (#[trigger] ts[k]) is Plain,
            forall|k: int|
                0 <= k < j ==> match #[trigger] ts[k] {
                    TermView::Plain(text) => space_runs(text) <= 65537,
                    TermView::Field(field, text) => space_runs(text) <= 65537 && match entry.field(
                        field,
                    ) {
                        Some(v) => v.len() <= u32::MAX,
                        None => true,
                    },
                },
        decreases query.terms.len() - j,
    {
        assert(ts[j as int] == query.terms@[j as int]@);
        match &query.terms[j] {
            QueryTerm::Plain(text) => {
                if space_runs_exec(&chars_of(text.as_str())) > 65537 {
                    return false;
                }
                plain = true;
            },
            QueryTerm::Field { field, text } => {
                if space_runs_exec(&chars_of(text.as_str())) > 65537 {
                    return false;
                }
                match entry.get_field(field.as_str()) {
                    Some(v) => {
                        if chars_of(v).len() > 0xffff_ffff {
                            return false;
                        }
                    },
                    None => {},
                }
            },
        }
        j += 1;
    }
    if plain {
        let h = plain_search_text(entry);
        if chars_of(h.as_str()).len() > 0xffff_ffff {
            return false;
        }
    }
    true
}

/// `entry_fits` for every entry.
pub open spec fn search_fits(es: Seq<Entry>, ts: Seq<TermView>) -> bool {
    forall|i: int| 0 <= i < es.len() ==> entry_fits(#[trigger] es[i], ts)
}

proof fn lemma_entry_score_none_sticky(
    e: Entry,
    ts: Seq<TermView>,
    j: int,
    n: int,
    smart: bool,
    fuzzy: bool,
)
    requires
        0 <= j <= n,
        entry_score(e, ts, j, smart, fuzzy) is None,
    ensures
        entry_score(e, ts, n, smart, fuzzy) is None,
    decreases n - j,
{
    if j < n {
        lemma_entry_score_none_sticky(e, ts, j + 1, n, smart, fuzzy);
    }
}

/// An entry's terms all match exactly when its combined score exists.
pub proof fn lemma_entry_score_all_terms(e: Entry, ts: Seq<TermView>, n: int, smart: bool, fuzzy: bool)
    requires
        0 <= n <= ts.len(),
    ensures
        entry_score(e, ts, n, smart, fuzzy) is Some <==> forall|k: int|
            0 <= k < n ==> #[trigger] term_score(e, ts[k], smart, fuzzy) is Some,
    decreases n,
{
    if n > 0 {
        lemma_entry_score_all_terms(e, ts, n - 1, smart, fuzzy);
    }
}

proof fn lemma_matches_of_contains(es: Seq<Entry>, ts: Seq<TermView>, n: int, smart: bool, fuzzy: bool)
    requires
        0 <= n <= es.len(),
    ensures
        forall|i: int|
            0 <= i < n && #[trigger] entry_score(es[i], ts, ts.len() as int, smart, fuzzy) is Some
                ==> matches_of(es, ts, n, smart, fuzzy).contains(
                (es[i].id.0@, entry_score(es[i], ts, ts.len() as int, smart, fuzzy)->Some_0),
            ),
        forall|r: (Seq<char>, u32)|
            #[trigger] matches_of(es, ts, n, smart, fuzzy).contains(r) ==> exists|i: int|
                0 <= i < n && es[i].id.0@ == r.0 && #[trigger] entry_score(
                    es[i],
                    ts,
                    ts.len() as int,
                    smart,
                    fuzzy,
                ) == Some(r.1),
    decreases n,
{
    if n > 0 {
        lemma_matches_of_contains(es, ts, n - 1, smart, fuzzy);
        let prev = matches_of(es, ts, n - 1, smart, fuzzy);
        let cur = matches_of(es, ts, n, smart, fuzzy);
        assert forall|i: int|
            0 <= i < n && #[trigger] entry_score(es[i], ts, ts.len() as int, smart, fuzzy) is Some
                implies cur.contains(
            (es[i].id.0@, entry_score(es[i], ts, ts.len() as int, smart, fuzzy)->Some_0),
        ) by {
            let r = (es[i].id.0@, entry_score(es[i], ts, ts.len() as int, smart, fuzzy)->Some_0);
            if i < n - 1 {
                let k = choose|k: int| 0 <= k < prev.len() && prev[k] == r;
                assert(cur[k] == r);
            } else {
                assert(cur[prev.len() as int] == r);
            }
        }
        assert forall|r: (Seq<char>, u32)| #[trigger] cur.contains(r) implies exists|i: int|
            0 <= i < n && es[i].id.0@ == r.0 && #[trigger] entry_score(
                es[i],
                ts,
                ts.len() as int,
                smart,
                fuzzy,
            ) == Some(r.1) by {
            let k = choose|k: int| 0 <= k < cur.len() && cur[k] == r;
            if k < prev.len() {
                assert(prev[k] == r);
                assert(prev.contains(r));
            } else {
                assert(entry_score(es[n - 1], ts, ts.len() as int, smart, fuzzy) == Some(r.1));
            }
        }
    }
}

/// A search returns exactly the entries that every term matches, each with
/// its combined score: an entry whose terms all match is in the results,
/// and every result is such an entry.
pub proof fn lemma_search_and_semantics(es: Seq<Entry>, ts: Seq<TermView>, smart: bool, fuzzy: bool)
    ensures
        forall|i: int|
            0 <= i < es.len() && (forall|k: int|
                0 <= k < ts.len() ==> #[trigger] term_score(es[i], ts[k], smart, fuzzy) is Some)
                ==> #[trigger] search_outcome(es, ts, smart, fuzzy).contains(
                (es[i].id.0@, entry_score(es[i], ts, ts.len() as int, smart, fuzzy)->Some_0),
            ),
        forall|r: (Seq<char>, u32)|
            #[trigger] search_outcome(es, ts, smart, fuzzy).contains(r) ==> exists|i: int|
                0 <= i < es.len() && es[i].id.0@ == r.0 && (forall|k: int|
                    0 <= k < ts.len() ==> #[trigger] term_score(es[i], ts[k], smart, fuzzy) is Some),
{
    let m = matches_of(es, ts, es.len() as int, smart, fuzzy);
    let out = search_outcome(es, ts, smart, fuzzy);
    lemma_matches_of_contains(es, ts, es.len() as int, smart, fuzzy);
    lemma_stable_sort_perm(m, ranking());
    assert forall|x: (Seq<char>, u32)| out.contains(x) == m.contains(x) by {
        vstd::seq_lib::to_multiset_contains(m, x);
        vstd::seq_lib::to_multiset_contains(out, x);
    }
    assert forall|i: int|
        0 <= i < es.len() && (forall|k: int|
            0 <= k < ts.len() ==> #[trigger] term_score(es[i], ts[k], smart, fuzzy) is Some)
            implies #[trigger] out.contains(
            (es[i].id.0@, entry_score(es[i], ts, ts.len() as int, smart, fuzzy)->Some_0),
        ) by {
        lemma_entry_score_all_terms(es[i], ts, ts.len() as int, smart, fuzzy);
    }
    assert forall|r: (Seq<char>, u32)| #[trigger] out.contains(r) implies exists|i: int|
        0 <= i < es.len() && es[i].id.0@ == r.0 && (forall|k: int|
            0 <= k < ts.len() ==> #[trigger] term_score(es[i], ts[k], smart, fuzzy) is Some) by {
        assert(m.contains(r));
        let i = choose|i: int|
            0 <= i < es.len() && es[i].id.0@ == r.0 && #[trigger] entry_score(
                es[i],
                ts,
                ts.len() as int,
                smart,
                fuzzy,
            ) == Some(r.1);
        lemma_entry_score_all_terms(es[i], ts, ts.len() as int, smart, fuzzy);
    }
}

/// The ranking order is a total preorder.
pub proof fn lemma_ranking_total_preorder()
    ensures
        vstd::relations::transitive(ranking()),
        vstd::relations::strongly_connected(ranking()),
{
    let le = ranking();
    assert forall|x: (Seq<char>, u32), y: (Seq<char>, u32), z: (Seq<char>, u32)|
        #[trigger] le(x, y) && #[trigger] le(y, z) implies le(x, z) by {
        if x.1 == y.1 && y.1 == z.1 {
            lemma_lex_order_trans(x.0, y.0, z.0);
        }
    }
    assert forall|x: (Seq<char>, u32), y: (Seq<char>, u32)| #[trigger] le(x, y) || #[trigger] le(
        y,
        x,
    ) by {
        lemma_lex_order_antisym(x.0, y.0);
    }
}

/// Search results are ranked: a higher score never follows a lower one, and
/// equal scores are in citation-key order.
pub proof fn lemma_search_ranked(es: Seq<Entry>, ts: Seq<TermView>, smart: bool, fuzzy: bool)
    ensures
        vstd::relations::sorted_by(search_outcome(es, ts, smart, fuzzy), ranking()),
{
    lemma_ranking_total_preorder();
    lemma_stable_sort_sorted(matches_of(es, ts, es.len() as int, smart, fuzzy), ranking());
}

proof fn lemma_matches_of_no_terms(es: Seq<Entry>, n: int, smart: bool, fuzzy: bool)
    requires
        0 <= n <= es.len(),
    ensures
        matches_of(es, Seq::empty(), n, smart, fuzzy) == es.take(n).map_values(
            |e: Entry| (e.id.0@, 0u32),
        ),
    decreases n,
{
    if n > 0 {
        lemma_matches_of_no_terms(es, n - 1, smart, fuzzy);
        assert(es.take(n).drop_last() =~= es.take(n - 1));
        assert(matches_of(es, Seq::empty(), n, smart, fuzzy) =~= es.take(n).map_values(
            |e: Entry| (e.id.0@, 0u32),
        ));
    }
}

/// The text a term looks for.
pub open spec fn term_text(tv: TermView) -> Seq<char> {
    match tv {
        TermView::Plain(x) => x,
        TermView::Field(_, x) => x,
    }
}

proof fn lemma_trimmed_text(s: Seq<char>)
    ensures
        trimmed(s) matches Some(x) ==> x.len() > 0 && trim(x) == x,
{
    crate::text::lemma_trim_idempotent(s);
}

proof fn lemma_field_terms_trimmed(t: Seq<char>, spans: Seq<(int, int)>, n: int)
    ensures
        forall|k: int|
            0 <= k < field_terms(t, spans, n).len() ==> term_text(#[trigger] field_terms(t, spans, n)[k]).len()
                > 0 && trim(term_text(field_terms(t, spans, n)[k])) == term_text(field_terms(t, spans, n)[k]),
    decreases n,
{
    if n > 0 {
        lemma_field_terms_trimmed(t, spans, n - 1);
        let end = if n < spans.len() {
            spans[n].0
        } else {
            t.len() as int
        };
        lemma_trimmed_text(t.subrange(spans[n - 1].1, end));
        let a = field_terms(t, spans, n - 1);
        let b = field_term(t, spans, n - 1);
        assert forall|k: int| 0 <= k < field_terms(t, spans, n).len() implies term_text(
            #[trigger] field_terms(t, spans, n)[k],
        ).len() > 0 && trim(term_text(field_terms(t, spans, n)[k])) == term_text(field_terms(t, spans, n)[k]) by {
            if k < a.len() {
                assert(field_terms(t, spans, n)[k] == a[k]);
            } else {
                assert(field_terms(t, spans, n)[k] == b[k - a.len()]);
            }
        }
    }
}

/// Every term of a parsed query looks for a non-empty text with no
/// whitespace at either end; a query without qualifiers is its trimmed text
/// as one plain term, or no term at all when it is blank.
pub proof fn lemma_query_terms_trimmed(t: Seq<char>)
    ensures
        forall|k: int|
            0 <= k < parse_terms(t).len() ==> term_text(#[trigger] parse_terms(t)[k]).len() > 0 && trim(
                term_text(parse_terms(t)[k]),
            ) == term_text(parse_terms(t)[k]),
        spans_from(t, 0).len() == 0 ==> parse_terms(t) == (if trim(t).len() == 0 {
            Seq::<TermView>::empty()
        } else {
            seq![TermView::Plain(trim(t))]
        }),
{
    let spans = spans_from(t, 0);
    if spans.len() == 0 {
        lemma_trimmed_text(t);
    } else {
        let p = plain_term(t.subrange(0, spans[0].0));
        let f = field_terms(t, spans, spans.len() as int);
        lemma_trimmed_text(t.subrange(0, spans[0].0));
        lemma_field_terms_trimmed(t, spans, spans.len() as int);
        assert forall|k: int| 0 <= k < parse_terms(t).len() implies term_text(#[trigger] parse_terms(t)[k]).len()
            > 0 && trim(term_text(parse_terms(t)[k])) == term_text(parse_terms(t)[k]) by {
            if k < p.len() {
                assert(parse_terms(t)[k] == p[k]);
            } else {
                assert(parse_terms(t)[k] == f[k - p.len()]);
            }
        }
    }
}

/// Whether the results `rs` name each entry at most once.
pub open spec fn result_keys_distinct(rs: Seq<(Seq<char>, u32)>) -> bool {
    forall|a: int, b: int| 0 <= a < b < rs.len() ==> (#[trigger] rs[a]).0 != (#[trigger] rs[b]).0
}

proof fn lemma_matches_of_distinct(es: Seq<Entry>, ts: Seq<TermView>, n: int, smart: bool, fuzzy: bool)
    requires
        0 <= n <= es.len(),
        crate::domain::ids_unique(es),
    ensures
        result_keys_distinct(matches_of(es, ts, n, smart, fuzzy)),
    decreases n,
{
    if n > 0 {
        lemma_matches_of_distinct(es, ts, n - 1, smart, fuzzy);
        lemma_matches_of_contains(es, ts, n - 1, smart, fuzzy);
        let prev = matches_of(es, ts, n - 1, smart, fuzzy);
        let cur = matches_of(es, ts, n, smart, fuzzy);
        assert forall|a: int, b: int| 0 <= a < b < cur.len() implies (#[trigger] cur[a]).0 != (#[trigger] cur[b]).0 by {
            assert(cur[a] == prev[a]);
            if b < prev.len() {
                assert(cur[b] == prev[b]);
            } else {
                assert(prev.contains(prev[a]));
                let i = choose|i: int|
                    0 <= i < n - 1 && es[i].id.0@ == prev[a].0 && #[trigger] entry_score(
                        es[i],
                        ts,
                        ts.len() as int,
                        smart,
                        fuzzy,
                    ) == Some(prev[a].1);
                assert(cur[b].0 == es[n - 1].id.0@);
                assert(es[i].id.0@ != es[n - 1].id.0@);
            }
        }
    }
}

/// A search over entries with distinct citation keys (as in every
/// well-formed bibliography) names each entry at most once.
pub proof fn lemma_search_results_distinct(es: Seq<Entry>, ts: Seq<TermView>, smart: bool, fuzzy: bool)
    requires
        crate::domain::ids_unique(es),
    ensures
        result_keys_distinct(search_outcome(es, ts, smart, fuzzy)),
{
    let m = matches_of(es, ts, es.len() as int, smart, fuzzy);
    let out = search_outcome(es, ts, smart, fuzzy);
    lemma_matches_of_distinct(es, ts, es.len() as int, smart, fuzzy);
    lemma_stable_sort_perm(m, ranking());
    assert(m.no_duplicates()) by {
        assert forall|a: int, b: int| 0 <= a < m.len() && 0 <= b < m.len() && a != b implies m[a] != m[b] by {
            if a < b {
                assert(m[a].0 != m[b].0);
            } else {
                assert(m[b].0 != m[a].0);
            }
        }
    }
    m.lemma_multiset_has_no_duplicates();
    assert forall|x: (Seq<char>, u32)| out.to_multiset().contains(x) implies out.to_multiset().count(x) == 1 by {
        assert(m.to_multiset().contains(x));
    }
    out.lemma_multiset_has_no_duplicates_conv();
    assert forall|a: int, b: int| 0 <= a < b < out.len() implies (#[trigger] out[a]).0 != (#[trigger] out[b]).0 by {
        if out[a].0 == out[b].0 {
            vstd::seq_lib::to_multiset_contains(out, out[a]);
            vstd::seq_lib::to_multiset_contains(out, out[b]);
            vstd::seq_lib::to_multiset_contains(m, out[a]);
            vstd::seq_lib::to_multiset_contains(m, out[b]);
            assert(out.contains(out[a]));
            assert(out.contains(out[b]));
            let p = choose|p: int| 0 <= p < m.len() && m[p] == out[a];
            let q = choose|q: int| 0 <= q < m.len() && m[q] == out[b];
            if p < q {
                assert(m[p].0 != m[q].0);
            } else if q < p {
                assert(m[q].0 != m[p].0);
            }
            assert(out[a] == out[b]);
        }
    }
}

/// Adding a term never widens a search: every entry found with the terms
/// `ts` and one more term `t` is also found with `ts` alone.
pub proof fn lemma_more_terms_narrow(es: Seq<Entry>, ts: Seq<TermView>, t: TermView, smart: bool, fuzzy: bool)
    ensures
        forall|r: (Seq<char>, u32)|
            #[trigger] search_outcome(es, ts.push(t), smart, fuzzy).contains(r) ==> exists|s: u32|
                search_outcome(es, ts, smart, fuzzy).contains((r.0, s)),
{
    lemma_search_and_semantics(es, ts, smart, fuzzy);
    lemma_search_and_semantics(es, ts.push(t), smart, fuzzy);
    assert forall|r: (Seq<char>, u32)|
        #[trigger] search_outcome(es, ts.push(t), smart, fuzzy).contains(r) implies exists|s: u32|
            search_outcome(es, ts, smart, fuzzy).contains((r.0, s)) by {
        let i = choose|i: int|
            0 <= i < es.len() && es[i].id.0@ == r.0 && (forall|k: int|
                0 <= k < ts.push(t).len() ==> #[trigger] term_score(es[i], ts.push(t)[k], smart, fuzzy) is Some);
        assert forall|k: int| 0 <= k < ts.len() implies #[trigger] term_score(es[i], ts[k], smart, fuzzy) is Some by {
            assert(ts.push(t)[k] == ts[k]);
        }
        let s = entry_score(es[i], ts, ts.len() as int, smart, fuzzy)->Some_0;
        assert(search_outcome(es, ts, smart, fuzzy).contains((es[i].id.0@, s)));
    }
}

/// A query without terms returns every entry, with score 0, in
/// citation-key order.
pub proof fn lemma_search_no_terms(es: Seq<Entry>, smart: bool, fuzzy: bool)
    ensures
        search_outcome(es, Seq::empty(), smart, fuzzy) == stable_sort(
            es.map_values(|e: Entry| (e.id.0@, 0u32)),
            ranking(),
        ),
        forall|i: int, j: int|
            0 <= i < j < es.len() ==> lex_order(
                #[trigger] search_outcome(es, Seq::empty(), smart, fuzzy)[i].0,
                #[trigger] search_outcome(es, Seq::empty(), smart, fuzzy)[j].0,
            ) <= 0,
        forall|i: int|
            0 <= i < es.len() ==> #[trigger] search_outcome(es, Seq::empty(), smart, fuzzy)[i].1
                == 0,
{
    lemma_matches_of_no_terms(es, es.len() as int, smart, fuzzy);
    assert(es.take(es.len() as int) =~= es);
    let m = es.map_values(|e: Entry| (e.id.0@, 0u32));
    let out = search_outcome(es, Seq::empty(), smart, fuzzy);
    lemma_search_ranked(es, Seq::empty(), smart, fuzzy);
    lemma_stable_sort_perm(m, ranking());
    assert forall|i: int| 0 <= i < es.len() implies #[trigger] out[i].1 == 0 by {
        vstd::seq_lib::to_multiset_contains(out, out[i]);
        vstd::seq_lib::to_multiset_contains(m, out[i]);
        assert(out.contains(out[i]));
        let k = choose|k: int| 0 <= k < m.len() && m[k] == out[i];
        assert(m[k].1 == 0);
    }
    assert forall|i: int, j: int| 0 <= i < j < es.len() implies lex_order(
        #[trigger] out[i].0,
        #[trigger] out[j].0,
    ) <= 0 by {
        assert(ranking()(out[i], out[j]));
        assert(out[i].1 == 0 && out[j].1 == 0);
    }
}

} // verus!
