//! Telling, from a source as written, whether putting its abbreviations in
//! place and following its `crossref` and `xdata` links is sure to end: an
//! abbreviation whose value leads back to itself, or an entry linked to an
//! entry of the same text, would send the parser round in a circle.
use vstd::prelude::*;

use crate::text::{push_all, chars_eq, chars_of, is_ascii_alnum, is_ascii_alnum_char, lower_seq, split, split_exec, to_ascii_lower};
use super::bibtex::{pieces_view, piece_view, raw_field_view, raw_fields_view, raw_source_view, PieceView, RawField, RawPiece, RawSource, RawSourceView};

verus! {

/// Whether every abbreviation named in `ps` can be put in place within
/// `fuel` nested steps, whichever definition in `defs` of a name is used.
pub open spec fn pieces_settle(defs: Seq<(Seq<char>, Seq<PieceView>)>, ps: Seq<PieceView>, fuel: nat) -> bool
    decreases fuel, 1nat, ps.len(),
{
    if ps.len() == 0 {
        true
    } else {
        pieces_settle(defs, ps.drop_last(), fuel) && match ps.last() {
            PieceView::Text(_) => true,
            PieceView::Name(n) => name_settles(defs, n, fuel, defs.len() as int),
        }
    }
}

/// Whether each of the first `j` definitions in `defs` that defines `n` has
/// a value whose names settle within `fuel - 1` further steps.
pub open spec fn name_settles(defs: Seq<(Seq<char>, Seq<PieceView>)>, n: Seq<char>, fuel: nat, j: int) -> bool
    decreases fuel, 0nat, j,
{
    if j <= 0 || j > defs.len() {
        true
    } else {
        name_settles(defs, n, fuel, j - 1) && (defs[j - 1].0 != n || (fuel > 0 && pieces_settle(
            defs,
            defs[j - 1].1,
            (fuel - 1) as nat,
        )))
    }
}

/// A character that the parser keeps as it is in a value.
pub open spec fn plain_char(c: char) -> bool {
    is_ascii_alnum(c) || c == '_' || c == ':' || c == '.' || c == '/' || c == ','
}

/// The text of a value made of literal pieces of plain characters only;
/// none for any other value.
pub open spec fn plain_value(ps: Seq<PieceView>) -> Option<Seq<char>>
    decreases ps.len(),
{
    if ps.len() == 0 {
        Some(Seq::empty())
    } else {
        match plain_value(ps.drop_last()) {
            None => None,
            Some(v) => match ps.last() {
                PieceView::Text(t) => if forall|k: int| 0 <= k < t.len() ==> plain_char(#[trigger] t[k]) {
                    Some(v + t)
                } else {
                    None
                },
                PieceView::Name(_) => None,
            },
        }
    }
}

/// Whether a field name is `crossref` or `xdata` (in any letter case).
pub open spec fn is_link_name(n: Seq<char>) -> bool {
    lower_seq(n) == seq!['c', 'r', 'o', 's', 's', 'r', 'e', 'f'] || lower_seq(n) == seq!['x', 'd', 'a', 't', 'a']
}

/// Whether a field name is `ids` (in any letter case).
pub open spec fn is_ids_name(n: Seq<char>) -> bool {
    lower_seq(n) == seq!['i', 'd', 's']
}

/// Whether some entry of `r` has an `ids` field (aliases for its key).
pub open spec fn has_ids(r: RawSourceView) -> bool {
    exists|e: int, f: int|
        0 <= e < r.entries.len() && 0 <= f < r.entries[e].1.len() && is_ids_name(#[trigger] r.entries[e].1[f].0)
}

/// Whether `v` is the key of an entry of `r`.
pub open spec fn names_key(r: RawSourceView, v: Seq<char>) -> bool {
    exists|e: int| 0 <= e < r.entries.len() && #[trigger] r.entries[e].0 == v
}

/// Whether none of `parts` is the key of an entry of `r`.
pub open spec fn parts_free(r: RawSourceView, parts: Seq<Seq<char>>) -> bool {
    forall|k: int| 0 <= k < parts.len() ==> !names_key(r, #[trigger] parts[k])
}

/// Whether a `crossref` or `xdata` value `ps` surely names no entry of
/// `r`: no entry has aliases, and the value is plain text none of whose
/// comma-separated parts is an entry's key.
pub open spec fn link_safe(r: RawSourceView, ps: Seq<PieceView>) -> bool {
    &&& !has_ids(r)
    &&& plain_value(ps) is Some
    &&& parts_free(r, split(plain_value(ps)->Some_0, seq![',']))
}

/// Whether the field `fld` of an entry of `r` resolves for sure: its
/// abbreviations settle, and as a link it names no entry of `r`.
pub open spec fn field_bounded(r: RawSourceView, fld: (Seq<char>, Seq<PieceView>)) -> bool {
    &&& pieces_settle(r.abbreviations, fld.1, r.abbreviations.len())
    &&& is_link_name(fld.0) ==> link_safe(r, fld.1)
}

/// Whether parsing a text whose form as written is `o` is sure to end: each
/// entry field's abbreviations can be put in place without coming back to
/// an abbreviation being put in place, and no `crossref` or `xdata` link
/// can lead to an entry of the same text. A text the parser rejects as
/// written ends at once.
pub open spec fn resolution_bounded(o: Option<RawSourceView>) -> bool {
    match o {
        None => true,
        Some(r) => raw_bounded(r),
    }
}

/// Whether every field of every entry of `r` resolves for sure.
pub open spec fn raw_bounded(r: RawSourceView) -> bool {
    forall|e: int| 0 <= e < r.entries.len() ==> fields_bounded(r, #[trigger] r.entries[e].1)
}

/// Whether every field of `fs`, the fields of an entry of `r`, resolves for
/// sure.
pub open spec fn fields_bounded(r: RawSourceView, fs: Seq<(Seq<char>, Seq<PieceView>)>) -> bool {
    forall|f: int| 0 <= f < fs.len() ==> field_bounded(r, #[trigger] fs[f])
}

proof fn lemma_plain_value_stuck(pv: Seq<PieceView>, n: int, m: int)
    requires
        0 <= n <= m <= pv.len(),
        plain_value(pv.take(n)) is None,
    ensures
        plain_value(pv.take(m)) is None,
    decreases m - n,
{
    if n < m {
        assert(pv.take(n + 1).drop_last() =~= pv.take(n));
        lemma_plain_value_stuck(pv, n + 1, m);
    }
}

proof fn lemma_unbounded_field(rv: RawSourceView, e: int, f: int)
    requires
        0 <= e < rv.entries.len(),
        0 <= f < rv.entries[e].1.len(),
        !field_bounded(rv, rv.entries[e].1[f]),
    ensures
        !raw_bounded(rv),
{
    assert(!fields_bounded(rv, rv.entries[e].1));
}

proof fn lemma_link_names_key(rv: RawSourceView, ps: Seq<PieceView>, v: Seq<char>, k: int)
    requires
        plain_value(ps) == Some(v),
        0 <= k < split(v, seq![',']).len(),
        names_key(rv, split(v, seq![','])[k]),
    ensures
        !link_safe(rv, ps),
{
    assert(!parts_free(rv, split(v, seq![','])));
}

/// Whether two strings hold the same text.
fn same_text(a: &String, b: &String) -> (r: bool)
    ensures
        r == (a@ == b@),
{
    chars_eq(&chars_of(a.as_str()), &chars_of(b.as_str()))
}

/// `pieces_settle` on the first pieces of `ps`.
fn pieces_settle_exec(defs: &Vec<RawField>, ps: &Vec<RawPiece>, fuel: usize) -> (r: bool)
    ensures
        r == pieces_settle(raw_fields_view(defs@), pieces_view(ps@), fuel as nat),
    decreases fuel, 1nat,
{
    let ghost dv = raw_fields_view(defs@);
    let ghost pv = pieces_view(ps@);
    let mut ok = true;
    let mut i: usize = 0;
    assert(pv.take(0) =~= Seq::<PieceView>::empty());
    while i < ps.len()
        invariant
            i <= ps@.len(),
            dv == raw_fields_view(defs@),
            pv == pieces_view(ps@),
            ok == pieces_settle(dv, pv.take(i as int), fuel as nat),
        decreases ps.len() - i,
    {
        assert(pv.take(i + 1).drop_last() =~= pv.take(i as int));
        assert(pv.take(i + 1).last() == piece_view(ps@[i as int]));
        let step = match &ps[i] {
            RawPiece::Text(_) => true,
            RawPiece::Name(n) => name_settles_exec(defs, n, fuel),
        };
        ok = ok && step;
        i += 1;
    }
    assert(pv.take(ps@.len() as int) =~= pv);
    ok
}

/// `name_settles` over all of `defs`.
fn name_settles_exec(defs: &Vec<RawField>, n: &String, fuel: usize) -> (r: bool)
    ensures
        r == name_settles(raw_fields_view(defs@), n@, fuel as nat, defs@.len() as int),
    decreases fuel, 0nat,
{
    let ghost dv = raw_fields_view(defs@);
    let mut ok = true;
    let mut j: usize = 0;
    while j < defs.len()
        invariant
            j <= defs@.len(),
            dv == raw_fields_view(defs@),
            dv.len() == defs@.len(),
            ok == name_settles(dv, n@, fuel as nat, j as int),
        decreases defs.len() - j,
    {
        assert(dv[j as int] == raw_field_view(defs@[j as int]));
        let step = if !same_text(&defs[j].name, n) {
            true
        } else if fuel == 0 {
            false
        } else {
            pieces_settle_exec(defs, &defs[j].pieces, fuel - 1)
        };
        ok = ok && step;
        j += 1;
    }
    ok
}

fn plain_char_exec(c: char) -> (r: bool)
    ensures
        r == plain_char(c),
{
    is_ascii_alnum_char(c) || c == '_' || c == ':' || c == '.' || c == '/' || c == ','
}

/// `plain_value` of `ps`.
#[verifier::loop_isolation(false)]
fn plain_value_exec(ps: &Vec<RawPiece>) -> (r: Option<Vec<char>>)
    ensures
        match plain_value(pieces_view(ps@)) {
            Some(v) => r matches Some(x) && x@ == v,
            None => r is None,
        },
{
    let ghost pv = pieces_view(ps@);
    let mut out: Vec<char> = Vec::new();
    let mut i: usize = 0;
    assert(pv.take(0) =~= Seq::<PieceView>::empty());
    while i < ps.len()
        invariant
            i <= ps@.len(),
            pv == pieces_view(ps@),
            plain_value(pv.take(i as int)) == Some(out@),
        decreases ps.len() - i,
    {
        assert(pv.take(i + 1).drop_last() =~= pv.take(i as int));
        assert(pv.take(i + 1).last() == piece_view(ps@[i as int]));
        match &ps[i] {
            RawPiece::Name(_) => {
                proof {
                    lemma_plain_value_stuck(pv, i as int + 1, ps@.len() as int);
                    assert(pv.take(ps@.len() as int) =~= pv);
                }
                return None;
            },
            RawPiece::Text(t) => {
                let cs = chars_of(t.as_str());
                let mut k: usize = 0;
                while k < cs.len()
                    invariant
                        k <= cs@.len(),
                        forall|m: int| 0 <= m < k ==> plain_char(#[trigger] cs@[m]),
                    decreases cs.len() - k,
                {
                    if !plain_char_exec(cs[k]) {
                        proof {
                            assert(!plain_char(cs@[k as int]));
                            lemma_plain_value_stuck(pv, i as int + 1, ps@.len() as int);
                            assert(pv.take(ps@.len() as int) =~= pv);
                        }
                        return None;
                    }
                    k += 1;
                }
                push_all(&mut out, &cs);
                assert(plain_value(pv.take(i + 1)) == Some(out@));
            },
        }
        i += 1;
    }
    assert(pv.take(ps@.len() as int) =~= pv);
    Some(out)
}


/// Whether the field name `n` is `name` (given in lower case), in any
/// letter case.
fn name_is(n: &String, name: &[char]) -> (r: bool)
    ensures
        r == (lower_seq(n@) == name@),
{
    chars_eq(&to_ascii_lower(&chars_of(n.as_str())), name)
}

/// `is_link_name`.
fn is_link_name_exec(n: &String) -> (r: bool)
    ensures
        r == is_link_name(n@),
{
    let crossref: Vec<char> = vec!['c', 'r', 'o', 's', 's', 'r', 'e', 'f'];
    let xdata: Vec<char> = vec!['x', 'd', 'a', 't', 'a'];
    assert(crossref@ =~= seq!['c', 'r', 'o', 's', 's', 'r', 'e', 'f']);
    assert(xdata@ =~= seq!['x', 'd', 'a', 't', 'a']);
    name_is(n, &crossref) || name_is(n, &xdata)
}

/// `has_ids`.
fn has_ids_exec(r: &RawSource) -> (b: bool)
    ensures
        b == has_ids(raw_source_view(*r)),
{
    let ghost rv = raw_source_view(*r);
    let ids: Vec<char> = vec!['i', 'd', 's'];
    assert(ids@ =~= seq!['i', 'd', 's']);
    let mut e: usize = 0;
    while e < r.entries.len()
        invariant
            e <= r.entries@.len(),
            rv == raw_source_view(*r),
            rv.entries.len() == r.entries@.len(),
            ids@ == seq!['i', 'd', 's'],
            forall|a: int, f: int|
                0 <= a < e && 0 <= f < rv.entries[a].1.len() ==> !is_ids_name(#[trigger] rv.entries[a].1[f].0),
        decreases r.entries.len() - e,
    {
        let fields = &r.entries[e].1;
        assert(rv.entries[e as int].1 == raw_fields_view(fields@));
        let mut f: usize = 0;
        while f < fields.len()
            invariant
                f <= fields@.len(),
                e < r.entries@.len(),
                rv == raw_source_view(*r),
                rv.entries.len() == r.entries@.len(),
                fields@ == r.entries@[e as int].1@,
                rv.entries[e as int].1 == raw_fields_view(fields@),
                ids@ == seq!['i', 'd', 's'],
                forall|a: int, g: int|
                    0 <= a < e && 0 <= g < rv.entries[a].1.len() ==> !is_ids_name(#[trigger] rv.entries[a].1[g].0),
                forall|g: int| 0 <= g < f ==> !is_ids_name(#[trigger] rv.entries[e as int].1[g].0),
            decreases fields.len() - f,
        {
            assert(rv.entries[e as int].1[f as int] == raw_field_view(fields@[f as int]));
            if name_is(&fields[f].name, &ids) {
                assert(is_ids_name(rv.entries[e as int].1[f as int].0));
                return true;
            }
            f += 1;
        }
        e += 1;
    }
    false
}

/// `names_key`.
fn names_key_exec(r: &RawSource, v: &[char]) -> (b: bool)
    ensures
        b == names_key(raw_source_view(*r), v@),
{
    let ghost rv = raw_source_view(*r);
    let mut e: usize = 0;
    while e < r.entries.len()
        invariant
            e <= r.entries@.len(),
            rv == raw_source_view(*r),
            rv.entries.len() == r.entries@.len(),
            forall|a: int| 0 <= a < e ==> #[trigger] rv.entries[a].0 != v@,
        decreases r.entries.len() - e,
    {
        assert(rv.entries[e as int].0 == r.entries@[e as int].0@);
        if chars_eq(&chars_of(r.entries[e].0.as_str()), v) {
            return true;
        }
        e += 1;
    }
    false
}

/// `link_safe`.
fn link_safe_exec(r: &RawSource, ps: &Vec<RawPiece>) -> (b: bool)
    ensures
        b == link_safe(raw_source_view(*r), pieces_view(ps@)),
{
    let ghost rv = raw_source_view(*r);
    if has_ids_exec(r) {
        return false;
    }
    let v = match plain_value_exec(ps) {
        None => return false,
        Some(v) => v,
    };
    let comma: Vec<char> = vec![','];
    assert(comma@ =~= seq![',']);
    let parts = split_exec(&v, &comma);
    let mut k: usize = 0;
    while k < parts.len()
        invariant
            k <= parts@.len(),
            rv == raw_source_view(*r),
            !has_ids(rv),
            plain_value(pieces_view(ps@)) == Some(v@),
            comma@ == seq![','],
            parts@.len() == split(v@, comma@).len(),
            forall|m: int| 0 <= m < parts@.len() ==> #[trigger] parts@[m]@ == split(v@, comma@)[m],
            forall|m: int| 0 <= m < k ==> !names_key(rv, #[trigger] split(v@, seq![','])[m]),
            plain_value(pieces_view(ps@))->Some_0 == v@,
        decreases parts.len() - k,
    {
        if names_key_exec(r, &parts[k]) {
            assert(parts@[k as int]@ == split(v@, seq![','])[k as int]);
            assert(names_key(rv, split(v@, seq![','])[k as int]));
            proof {
                lemma_link_names_key(rv, pieces_view(ps@), v@, k as int);
            }
            return false;
        }
        k += 1;
    }
    true
}

/// `field_bounded` for the field `fld` of an entry of `r`.
fn field_bounded_exec(r: &RawSource, fld: &RawField) -> (b: bool)
    ensures
        b == field_bounded(raw_source_view(*r), raw_field_view(*fld)),
{
    let settle = pieces_settle_exec(&r.abbreviations, &fld.pieces, r.abbreviations.len());
    if !settle {
        return false;
    }
    if is_link_name_exec(&fld.name) {
        link_safe_exec(r, &fld.pieces)
    } else {
        true
    }
}

/// Whether parsing the text whose form as written is `r` is sure to end
/// (`resolution_bounded`).
pub fn resolution_bounded_exec(r: &RawSource) -> (b: bool)
    ensures
        b == raw_bounded(raw_source_view(*r)),
{
    let ghost rv = raw_source_view(*r);
    let mut e: usize = 0;
    while e < r.entries.len()
        invariant
            e <= r.entries@.len(),
            rv == raw_source_view(*r),
            rv.entries.len() == r.entries@.len(),
            forall|a: int| 0 <= a < e ==> fields_bounded(rv, #[trigger] rv.entries[a].1),
        decreases r.entries.len() - e,
    {
        let fields = &r.entries[e].1;
        assert(rv.entries[e as int].1 == raw_fields_view(fields@));
        let mut f: usize = 0;
        while f < fields.len()
            invariant
                f <= fields@.len(),
                e < r.entries@.len(),
                rv == raw_source_view(*r),
                rv.entries.len() == r.entries@.len(),
                fields@ == r.entries@[e as int].1@,
                rv.entries[e as int].1 == raw_fields_view(fields@),
                forall|a: int| 0 <= a < e ==> fields_bounded(rv, #[trigger] rv.entries[a].1),
                forall|g: int| 0 <= g < f ==> field_bounded(rv, #[trigger] rv.entries[e as int].1[g]),
            decreases fields.len() - f,
        {
            assert(rv.entries[e as int].1[f as int] == raw_field_view(fields@[f as int]));
            if !field_bounded_exec(r, &fields[f]) {
                assert(0 <= f < rv.entries[e as int].1.len());
                assert(!field_bounded(rv, rv.entries[e as int].1[f as int]));
                proof {
                    lemma_unbounded_field(rv, e as int, f as int);
                }
                return false;
            }
            f += 1;
        }
        assert(fields_bounded(rv, rv.entries[e as int].1));
        e += 1;
    }
    true
}

} // verus!
