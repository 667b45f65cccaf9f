//! Ordering entries by year, first author, title or journal.
use vstd::prelude::*;
use vstd::relations::{sorted_by, strongly_connected, transitive};

use crate::sorting::{
    lemma_stable_sort_map, lemma_stable_sort_perm, lemma_stable_sort_sorted, sort_by_le,
    stable_sort,
};
use crate::text::{
    chars_of, lemma_lex_order_antisym, lemma_lex_order_eq, lemma_lex_order_range,
    lemma_lex_order_trans, lex_order, lex_order_exec, lower_seq, to_ascii_lower, trim, trim_chars,
};
use super::Entry;

verus! {

/// The key that entries are sorted by.
#[derive(Debug, Clone, Copy, PartialEq, Eq, Structural)]
pub enum SortField {
    Year,
    Author,
    Title,
    Journal,
}

/// Sorts lists of entries.
pub struct Sorter;

/// A text as sorting compares it: trimmed and ASCII lower-cased.
pub open spec fn normalized(s: Seq<char>) -> Seq<char> {
    lower_seq(trim(s))
}

/// The name `journal`.
pub open spec fn journal_key() -> Seq<char> {
    seq!['j', 'o', 'u', 'r', 'n', 'a', 'l']
}

/// The normalized first author of `e`, if it names one.
pub open spec fn first_author_key(e: Entry) -> Option<Seq<char>> {
    if e.author_names().len() > 0 {
        Some(normalized(e.author_names()[0]))
    } else {
        None
    }
}

/// The normalized value of the field `key` of `e`, if present.
pub open spec fn normalized_field(e: Entry, key: Seq<char>) -> Option<Seq<char>> {
    match e.field(key) {
        Some(v) => Some(normalized(v)),
        None => None,
    }
}

/// Three-way comparison of numbers: negative, zero or positive.
pub open spec fn nat_order(a: nat, b: nat) -> int {
    if a < b {
        -1
    } else if a > b {
        1
    } else {
        0
    }
}

/// Comparison of optional numbers: present values in the requested
/// direction, absent values after all present ones.
pub open spec fn option_nat_order(l: Option<nat>, r: Option<nat>, ascending: bool) -> int {
    match (l, r) {
        (Some(a), Some(b)) => if ascending {
            nat_order(a, b)
        } else {
            nat_order(b, a)
        },
        (Some(_), None) => -1,
        (None, Some(_)) => 1,
        (None, None) => 0,
    }
}

/// Comparison of optional texts: present values in the requested direction,
/// absent values after all present ones.
pub open spec fn option_text_order(
    l: Option<Seq<char>>,
    r: Option<Seq<char>>,
    ascending: bool,
) -> int {
    match (l, r) {
        (Some(a), Some(b)) => if ascending {
            lex_order(a, b)
        } else {
            lex_order(b, a)
        },
        (Some(_), None) => -1,
        (None, Some(_)) => 1,
        (None, None) => 0,
    }
}

/// The comparison of two entries by the sort key alone.
pub open spec fn primary_order(l: Entry, r: Entry, field: SortField, ascending: bool) -> int {
    match field {
        SortField::Year => option_nat_order(l.year_value(), r.year_value(), ascending),
        SortField::Author => option_text_order(
            first_author_key(l),
            first_author_key(r),
            ascending,
        ),
        SortField::Title => option_text_order(
            normalized_field(l, super::title_key()),
            normalized_field(r, super::title_key()),
            ascending,
        ),
        SortField::Journal => option_text_order(
            normalized_field(l, journal_key()),
            normalized_field(r, journal_key()),
            ascending,
        ),
    }
}

/// The comparison of two entries: by the sort key, ties broken by the
/// normalized citation key (always ascending).
pub open spec fn entry_order(l: Entry, r: Entry, field: SortField, ascending: bool) -> int {
    let p = primary_order(l, r, field, ascending);
    if p != 0 {
        p
    } else {
        lex_order(normalized(l.id.0@), normalized(r.id.0@))
    }
}

/// "Comes no later than" for the given sort key and direction.
pub open spec fn entry_le(field: SortField, ascending: bool) -> spec_fn(Entry, Entry) -> bool {
    |a: Entry, b: Entry| entry_order(a, b, field, ascending) <= 0
}

/// The entries behind a list of references.
pub open spec fn derefs(v: Seq<&Entry>) -> Seq<Entry> {
    v.map_values(|e: &Entry| *e)
}

/// The sort key's comparison as a spec function on references.
pub open spec fn entry_ref_le<'a>(field: SortField, ascending: bool) -> spec_fn(&'a Entry, &'a Entry) -> bool {
    |a: &'a Entry, b: &'a Entry| entry_order(*a, *b, field, ascending) <= 0
}

proof fn lemma_option_text_order(
    a: Option<Seq<char>>,
    b: Option<Seq<char>>,
    c: Option<Seq<char>>,
    asc: bool,
)
    ensures
        option_text_order(a, b, asc) == -option_text_order(b, a, asc),
        -1 <= option_text_order(a, b, asc) <= 1,
        option_text_order(a, b, asc) <= 0 && option_text_order(b, c, asc) <= 0
            ==> option_text_order(a, c, asc) <= 0,
{
    if let (Some(x), Some(y)) = (a, b) {
        lemma_lex_order_antisym(x, y);
        lemma_lex_order_range(x, y);
        lemma_lex_order_range(y, x);
    }
    if let (Some(x), Some(y), Some(z)) = (a, b, c) {
        if asc {
            if lex_order(x, y) <= 0 && lex_order(y, z) <= 0 {
                lemma_lex_order_trans(x, y, z);
            }
        } else {
            if lex_order(y, x) <= 0 && lex_order(z, y) <= 0 {
                lemma_lex_order_trans(z, y, x);
            }
        }
    }
}

proof fn lemma_primary_order(a: Entry, b: Entry, c: Entry, field: SortField, asc: bool)
    ensures
        primary_order(a, b, field, asc) == -primary_order(b, a, field, asc),
        -1 <= primary_order(a, b, field, asc) <= 1,
        primary_order(a, b, field, asc) <= 0 && primary_order(b, c, field, asc) <= 0
            ==> primary_order(a, c, field, asc) <= 0,
{
    match field {
        SortField::Year => {},
        SortField::Author => {
            lemma_option_text_order(first_author_key(a), first_author_key(b), first_author_key(c), asc);
        },
        SortField::Title => {
            let k = super::title_key();
            lemma_option_text_order(
                normalized_field(a, k),
                normalized_field(b, k),
                normalized_field(c, k),
                asc,
            );
        },
        SortField::Journal => {
            let k = journal_key();
            lemma_option_text_order(
                normalized_field(a, k),
                normalized_field(b, k),
                normalized_field(c, k),
                asc,
            );
        },
    }
}

/// `entry_order` is antisymmetric and its "no later than" is transitive.
proof fn lemma_entry_order(a: Entry, b: Entry, c: Entry, field: SortField, asc: bool)
    ensures
        entry_order(a, b, field, asc) == -entry_order(b, a, field, asc),
        entry_order(a, b, field, asc) <= 0 && entry_order(b, c, field, asc) <= 0
            ==> entry_order(a, c, field, asc) <= 0,
{
    let (na, nb, nc) = (normalized(a.id.0@), normalized(b.id.0@), normalized(c.id.0@));
    lemma_primary_order(a, b, c, field, asc);
    lemma_primary_order(b, c, a, field, asc);
    lemma_primary_order(c, a, b, field, asc);
    lemma_primary_order(a, c, b, field, asc);
    lemma_lex_order_antisym(na, nb);
    if entry_order(a, b, field, asc) <= 0 && entry_order(b, c, field, asc) <= 0 {
        let (pab, pbc, pac) = (
            primary_order(a, b, field, asc),
            primary_order(b, c, field, asc),
            primary_order(a, c, field, asc),
        );
        if pab == 0 && pbc == 0 {
            lemma_lex_order_trans(na, nb, nc);
        } else if pac == 0 {
            // Then `c` and `a` tie on the key, so `a` would come after `b`
            // or `b` after `c`.
            assert(primary_order(c, a, field, asc) == 0);
        }
    }
}

/// For every sort key and direction, "comes no later than" is a total
/// preorder: transitive, and any two entries are comparable.
pub proof fn lemma_entry_le_total_preorder(field: SortField, ascending: bool)
    ensures
        transitive(entry_le(field, ascending)),
        strongly_connected(entry_le(field, ascending)),
{
    let le = entry_le(field, ascending);
    assert forall|x: Entry, y: Entry, z: Entry| #[trigger] le(x, y) && #[trigger] le(y, z) implies le(
        x,
        z,
    ) by {
        lemma_entry_order(x, y, z, field, ascending);
    }
    assert forall|x: Entry, y: Entry| #[trigger] le(x, y) || #[trigger] le(y, x) by {
        lemma_entry_order(x, y, x, field, ascending);
    }
}

/// Sorting entries yields the same entries, sorted by the key and direction.
pub proof fn lemma_sort_sorted_permutation(es: Seq<Entry>, field: SortField, ascending: bool)
    ensures
        stable_sort(es, entry_le(field, ascending)).to_multiset() == es.to_multiset(),
        sorted_by(stable_sort(es, entry_le(field, ascending)), entry_le(field, ascending)),
{
    lemma_stable_sort_perm(es, entry_le(field, ascending));
    lemma_entry_le_total_preorder(field, ascending);
    lemma_stable_sort_sorted(es, entry_le(field, ascending));
}

/// Whether `e` has a value for the sort key.
pub open spec fn has_sort_key(e: Entry, field: SortField) -> bool {
    match field {
        SortField::Year => e.year_value() is Some,
        SortField::Author => first_author_key(e) is Some,
        SortField::Title => normalized_field(e, super::title_key()) is Some,
        SortField::Journal => normalized_field(e, journal_key()) is Some,
    }
}

/// In either direction, entries without a value for the sort key come
/// after all entries with one.
pub proof fn lemma_sort_missing_last(es: Seq<Entry>, field: SortField, ascending: bool)
    ensures
        forall|i: int, j: int|
            0 <= i < j < es.len() && !has_sort_key(
                #[trigger] stable_sort(es, entry_le(field, ascending))[i],
                field,
            ) ==> !has_sort_key(#[trigger] stable_sort(es, entry_le(field, ascending))[j], field),
{
    let s = stable_sort(es, entry_le(field, ascending));
    lemma_sort_sorted_permutation(es, field, ascending);
    lemma_stable_sort_perm(es, entry_le(field, ascending));
    assert forall|i: int, j: int|
        0 <= i < j < es.len() && !has_sort_key(#[trigger] s[i], field) implies !has_sort_key(
        #[trigger] s[j],
        field,
    ) by {
        assert(entry_le(field, ascending)(s[i], s[j]));
    }
}

/// `s` trimmed and lower-cased.
fn normalized_exec(s: &str) -> (r: Vec<char>)
    ensures
        r@ == normalized(s@),
{
    to_ascii_lower(&trim_chars(&chars_of(s)))
}

/// The normalized first author.
fn first_author(entry: &Entry) -> (r: Option<Vec<char>>)
    ensures
        r matches Some(v) ==> first_author_key(*entry) == Some(v@),
        r is None ==> first_author_key(*entry) is None,
{
    let authors = entry.authors();
    if authors.len() > 0 {
        Some(normalized_exec(authors[0].as_str()))
    } else {
        None
    }
}

/// The normalized value of `field`, where `field` is a lower-case name.
fn normalized_field_exec(entry: &Entry, field: &str) -> (r: Option<Vec<char>>)
    ensures
        r matches Some(v) ==> normalized_field(*entry, field@) == Some(v@),
        r is None ==> normalized_field(*entry, field@) is None,
{
    match entry.get_field(field) {
        Some(v) => Some(normalized_exec(v)),
        None => None,
    }
}

/// `option_nat_order` on `u32`s.
fn compare_optional_u32(left: Option<u32>, right: Option<u32>, ascending: bool) -> (r: i8)
    ensures
        r as int == option_nat_order(
            match left {
                Some(a) => Some(a as nat),
                None => None,
            },
            match right {
                Some(b) => Some(b as nat),
                None => None,
            },
            ascending,
        ),
{
    match (left, right) {
        (Some(a), Some(b)) => {
            let (x, y) = if ascending {
                (a, b)
            } else {
                (b, a)
            };
            if x < y {
                -1
            } else if x > y {
                1
            } else {
                0
            }
        },
        (Some(_), None) => -1,
        (None, Some(_)) => 1,
        (None, None) => 0,
    }
}

/// `option_text_order` on character vectors.
fn compare_optional_text(left: Option<Vec<char>>, right: Option<Vec<char>>, ascending: bool) -> (r:
    i8)
    ensures
        r as int == option_text_order(
            match left {
                Some(a) => Some(a@),
                None => None,
            },
            match right {
                Some(b) => Some(b@),
                None => None,
            },
            ascending,
        ),
{
    match (left, right) {
        (Some(a), Some(b)) => {
            if ascending {
                lex_order_exec(&a, &b)
            } else {
                lex_order_exec(&b, &a)
            }
        },
        (Some(_), None) => -1,
        (None, Some(_)) => 1,
        (None, None) => 0,
    }
}

/// `entry_order` computed.
fn compare_entries(left: &Entry, right: &Entry, field: SortField, ascending: bool) -> (r: i8)
    ensures
        r as int == entry_order(*left, *right, field, ascending),
{
    proof {
        reveal_strlit("journal");
        reveal_strlit("title");
        assert("journal"@ =~= journal_key());
        assert("title"@ =~= super::title_key());
    }
    let primary = match field {
        SortField::Year => compare_optional_u32(left.year(), right.year(), ascending),
        SortField::Author => compare_optional_text(first_author(left), first_author(right), ascending),
        SortField::Title => compare_optional_text(
            normalized_field_exec(left, "title"),
            normalized_field_exec(right, "title"),
            ascending,
        ),
        SortField::Journal => compare_optional_text(
            normalized_field_exec(left, "journal"),
            normalized_field_exec(right, "journal"),
            ascending,
        ),
    };
    if primary != 0 {
        primary
    } else {
        lex_order_exec(&normalized_exec(left.id.0.as_str()), &normalized_exec(right.id.0.as_str()))
    }
}

/// Whether `a` comes no later than `b` for the sort key and direction.
fn entry_leq(a: &&Entry, b: &&Entry, field: SortField, ascending: bool) -> (o: bool)
    ensures
        o == (entry_order(**a, **b, field, ascending) <= 0),
{
    compare_entries(*a, *b, field, ascending) <= 0
}

impl Sorter {
    /// Sorts `entries` stably by `field`, ascending or descending; entries
    /// without the field come last either way, and ties are broken by
    /// citation key.
    pub fn sort<'a>(entries: &mut Vec<&'a Entry>, field: SortField, ascending: bool)
        ensures
            derefs(final(entries)@) == stable_sort(derefs(old(entries)@), entry_le(field, ascending)),
    {
        let mut taken: Vec<&'a Entry> = Vec::new();
        std::mem::swap(&mut taken, entries);
        let ghost le_r = entry_ref_le(field, ascending);
        let leq = |a: &&Entry, b: &&Entry| -> (o: bool)
            ensures
                o == (entry_order(**a, **b, field, ascending) <= 0),
            { entry_leq(a, b, field, ascending) };
        proof {
            lemma_stable_sort_map(taken@, |e: &Entry| *e, le_r, entry_le(field, ascending));
        }
        let sorted = sort_by_le(taken, leq, Ghost(le_r));
        *entries = sorted;
    }
}

} // verus!
