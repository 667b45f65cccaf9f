//! Writing entries and bibliographies back out as BibTeX text.
use vstd::prelude::*;

use crate::sorting::{lemma_stable_sort_map, sort_by_le, stable_sort};
use crate::text::{chars_of, lex_order, lex_order_exec};
use super::{Bibliography, Entry, EntryView};
use super::fields::{pairs_view, FieldMap};

verus! {

/// Orders `(name, value)` pairs by name.
pub open spec fn field_name_le(a: (Seq<char>, Seq<char>), b: (Seq<char>, Seq<char>)) -> bool {
    lex_order(a.0, b.0) <= 0
}

/// `field_name_le` as a relation.
pub open spec fn name_order() -> spec_fn((Seq<char>, Seq<char>), (Seq<char>, Seq<char>)) -> bool {
    |a: (Seq<char>, Seq<char>), b: (Seq<char>, Seq<char>)| field_name_le(a, b)
}

/// One field line: `  name = {value}`, a comma unless it is the last, and
/// a newline.
pub open spec fn field_line(f: (Seq<char>, Seq<char>), last: bool) -> Seq<char> {
    "  "@ + f.0 + " = {"@ + f.1 + "}"@ + (if last {
        Seq::empty()
    } else {
        ","@
    }) + "\n"@
}

/// The lines of the first `n` of the fields `fs`.
pub open spec fn field_lines(fs: Seq<(Seq<char>, Seq<char>)>, n: int) -> Seq<char>
    decreases n,
{
    if n <= 0 {
        Seq::empty()
    } else {
        field_lines(fs, n - 1) + field_line(fs[n - 1], n >= fs.len())
    }
}

/// The BibTeX text of an entry: its type, key and fields sorted by name.
pub open spec fn entry_text(e: EntryView) -> Seq<char> {
    let fs = stable_sort(e.fields, name_order());
    "@"@ + e.entry_type + "{"@ + e.id + ",\n"@ + field_lines(fs, fs.len() as int) + "}\n"@
}

/// Orders entries by citation key.
pub open spec fn id_le(a: Entry, b: Entry) -> bool {
    lex_order(a.id.0@, b.id.0@) <= 0
}

/// The texts of the first `n` entries of `es`, separated by blank lines.
pub open spec fn entries_text(es: Seq<EntryView>, n: int) -> Seq<char>
    decreases n,
{
    if n <= 0 {
        Seq::empty()
    } else if n == 1 {
        entry_text(es[0])
    } else {
        entries_text(es, n - 1) + "\n"@ + entry_text(es[n - 1])
    }
}

/// The BibTeX text of a whole bibliography: its entries sorted by citation
/// key.
pub open spec fn bibliography_text(es: Seq<Entry>) -> Seq<char> {
    let sorted = stable_sort(es, |a: Entry, b: Entry| id_le(a, b));
    entries_text(sorted.map_values(|e: Entry| e@), sorted.len() as int)
}

/// Whether the name of `a` comes no later than the name of `b`.
fn pair_name_leq(a: &(String, String), b: &(String, String)) -> (o: bool)
    ensures
        o == field_name_le((a.0@, a.1@), (b.0@, b.1@)),
{
    lex_order_exec(&chars_of(a.0.as_str()), &chars_of(b.0.as_str())) <= 0
}

/// Whether the citation key of `a` comes no later than that of `b`.
fn entry_id_leq(a: &&Entry, b: &&Entry) -> (o: bool)
    ensures
        o == id_le(**a, **b),
{
    lex_order_exec(&chars_of(a.id.0.as_str()), &chars_of(b.id.0.as_str())) <= 0
}

/// The fields of `fm`, sorted by name.
pub fn sorted_fields(fm: &FieldMap) -> (r: Vec<(String, String)>)
    ensures
        pairs_view(r@) == stable_sort(fm@, name_order()),
{
    let pairs = fm.to_pairs();
    let ghost f = |p: (String, String)| (p.0@, p.1@);
    let ghost le_s = |a: (String, String), b: (String, String)| field_name_le(f(a), f(b));
    proof {
        assert(pairs_view(pairs@) =~= pairs@.map_values(f));
        lemma_stable_sort_map(pairs@, f, le_s, name_order());
    }
    let sorted = sort_by_le(pairs, pair_name_leq, Ghost(le_s));
    assert(pairs_view(sorted@) =~= sorted@.map_values(f));
    sorted
}

/// Renders `entry` as BibTeX: `@type{key,`, one `  name = {value}` line per
/// field in name order, and a closing brace.
pub fn format_entry(entry: &Entry) -> (r: String)
    ensures
        r@ == entry_text(entry@),
{
    let sorted = sorted_fields(&entry.fields);
    let ghost fs = stable_sort(entry@.fields, name_order());
    let ghost f = |p: (String, String)| (p.0@, p.1@);
    assert(sorted@.map_values(f) =~= pairs_view(sorted@));
    let mut out = String::new();
    out.append("@");
    out.append(entry.entry_type.as_str());
    out.append("{");
    out.append(entry.id.0.as_str());
    out.append(",\n");
    let ghost head = out@;
    let mut i: usize = 0;
    while i < sorted.len()
        invariant
            i <= sorted@.len(),
            sorted@.map_values(f) == fs,
            forall|p: (String, String)| #[trigger] f(p) == (p.0@, p.1@),
            out@ == head + field_lines(fs, i as int),
        decreases sorted.len() - i,
    {
        let ghost before = out@;
        assert(fs[i as int] == f(sorted@[i as int]));
        assert(f(sorted@[i as int]) == (sorted@[i as int].0@, sorted@[i as int].1@));
        out.append("  ");
        out.append(sorted[i].0.as_str());
        out.append(" = {");
        out.append(sorted[i].1.as_str());
        out.append("}");
        let ghost mid = out@;
        if i + 1 < sorted.len() {
            out.append(",");
        }
        out.append("\n");
        proof {
            let last = i + 1 >= fs.len();
            assert(mid =~= before + "  "@ + fs[i as int].0 + " = {"@ + fs[i as int].1 + "}"@);
            if last {
                assert(out@ =~= mid + "\n"@);
            } else {
                assert(out@ =~= mid + ","@ + "\n"@);
            }
            assert(out@ =~= before + field_line(fs[i as int], last));
            assert(field_lines(fs, i + 1) == field_lines(fs, i as int) + field_line(fs[i as int], last));
        }
        i += 1;
    }
    out.append("}\n");
    assert(out@ =~= entry_text(entry@));
    out
}

impl Bibliography {
    /// The BibTeX text of the whole bibliography, entries in citation-key
    /// order separated by blank lines; writing it to a file saves the
    /// bibliography.
    pub fn to_bibtex(&self) -> (r: String)
        ensures
            r@ == bibliography_text(self.entries_view()),
    {
        let all = self.iter();
        let mut refs: Vec<&Entry> = Vec::new();
        let mut i: usize = 0;
        while i < all.len()
            invariant
                i <= all@.len(),
                all@ == self.entries_view(),
                refs@.len() == i,
                forall|j: int| 0 <= j < i ==> *(#[trigger] refs@[j]) == all@[j],
            decreases all.len() - i,
        {
            refs.push(&all[i]);
            i += 1;
        }
        assert(refs@.map_values(|e: &Entry| *e) =~= all@);
        let ghost d = |e: &Entry| *e;
        let ghost le_r = |a: &Entry, b: &Entry| id_le(*a, *b);
        let ghost le_e = |a: Entry, b: Entry| id_le(a, b);
        proof {
            lemma_stable_sort_map(refs@, d, le_r, le_e);
        }
        let sorted = sort_by_le(refs, entry_id_leq, Ghost(le_r));
        let ghost es = stable_sort(self.entries_view(), le_e).map_values(|e: Entry| e@);
        assert(sorted@.map_values(d) == stable_sort(self.entries_view(), le_e));
        let mut out = String::new();
        let mut k: usize = 0;
        while k < sorted.len()
            invariant
                k <= sorted@.len(),
                es.len() == sorted@.len(),
                forall|j: int| 0 <= j < sorted@.len() ==> #[trigger] es[j] == sorted@[j]@,
                out@ == entries_text(es, k as int),
            decreases sorted.len() - k,
        {
            if k > 0 {
                out.append("\n");
            }
            let text = format_entry(sorted[k]);
            out.append(text.as_str());
            k += 1;
        }
        out
    }
}

} // verus!
