//! Where the interface's "open PDF" action looks for a document.
use vstd::prelude::*;

use crate::config::paths::{join_path, join_path_text, parent};
use crate::domain::Entry;
use crate::infra::launcher::bib_dir_of;
use crate::services::notes::names::texts;
use crate::text::{chars_of, ends_with, ends_with_exec, split, split_exec, string_of, trim, trim_chars};

verus! {

/// The trimmed, non-empty parts of `segs`, each split at `:`, in order.
pub open spec fn colon_pieces(segs: Seq<Seq<char>>) -> Seq<Seq<char>>
    decreases segs.len(),
{
    if segs.len() == 0 {
        Seq::empty()
    } else {
        colon_pieces(segs.drop_last()) + split(segs.last(), seq![':']).map_values(
            |p: Seq<char>| trim(p),
        ).filter(|p: Seq<char>| p.len() > 0)
    }
}

/// The paths named by a `pdf` or `file` value: split at `;`, then at `:`,
/// trimmed, empty ones dropped.
pub open spec fn path_pieces(value: Seq<char>) -> Seq<Seq<char>> {
    colon_pieces(split(value, seq![';']))
}

/// The paths named by the field `name` of `e`.
pub open spec fn field_pieces(e: Entry, name: Seq<char>) -> Seq<Seq<char>> {
    match e.field(name) {
        Some(v) => path_pieces(v),
        None => Seq::empty(),
    }
}

/// The candidate documents of `e`, in order: the paths of its `pdf` field,
/// then of its `file` field, each relative to the directory of its BibTeX
/// file, with whether the path as written ends in `.pdf`.
pub open spec fn target_list(e: Entry) -> Seq<(Seq<char>, bool)> {
    (field_pieces(e, "pdf"@) + field_pieces(e, "file"@)).map_values(
        |c: Seq<char>| (join_path(bib_dir_of(e), c), ends_with(c, ".pdf"@)),
    )
}

/// The first candidate, from position `i` on, that exists or is named as a
/// PDF.
pub open spec fn first_usable(list: Seq<(Seq<char>, bool)>, exists: Seq<bool>, i: int) -> Option<int>
    decreases list.len() - i,
{
    if i < 0 || i >= list.len() {
        None
    } else if exists[i] || list[i].1 {
        Some(i)
    } else {
        first_usable(list, exists, i + 1)
    }
}

/// The document to open for `e`, given which candidates exist: the first
/// usable candidate, else the `url` field.
pub open spec fn pdf_target(e: Entry, exists: Seq<bool>) -> Option<Seq<char>> {
    match first_usable(target_list(e), exists, 0) {
        Some(i) => Some(target_list(e)[i].0),
        None => e.field("url"@),
    }
}

/// The paths of the field `name` of `entry` (`field_pieces`).
fn pieces_of(entry: &Entry, name: &str) -> (r: Vec<Vec<char>>)
    ensures
        r@.map_values(|p: Vec<char>| p@) == field_pieces(*entry, name@),
{
    let mut out: Vec<Vec<char>> = Vec::new();
    let value = match entry.get_field(name) {
        Some(v) => v,
        None => {
            assert(out@.map_values(|p: Vec<char>| p@) =~= Seq::<Seq<char>>::empty());
            return out;
        },
    };
    let semi: Vec<char> = vec![';'];
    let colon: Vec<char> = vec![':'];
    assert(semi@ =~= seq![';']);
    assert(colon@ =~= seq![':']);
    let segs = split_exec(&chars_of(value), &semi);
    let ghost sv = split(value@, seq![';']);
    assert(segs@.map_values(|p: Vec<char>| p@) =~= sv);
    let mut i: usize = 0;
    assert(out@.map_values(|p: Vec<char>| p@) =~= colon_pieces(sv.take(0)));
    while i < segs.len()
        invariant
            i <= segs@.len(),
            segs@.map_values(|p: Vec<char>| p@) == sv,
            colon@ == seq![':'],
            out@.map_values(|p: Vec<char>| p@) == colon_pieces(sv.take(i as int)),
        decreases segs.len() - i,
    {
        assert(sv.take(i + 1).drop_last() =~= sv.take(i as int));
        assert(sv[i as int] == segs@[i as int]@);
        let parts = split_exec(&segs[i], &colon);
        let ghost pv = split(segs@[i as int]@, seq![':']);
        let ghost tv = pv.map_values(|p: Seq<char>| trim(p));
        let ghost before = out@.map_values(|p: Vec<char>| p@);
        let mut j: usize = 0;
        while j < parts.len()
            invariant
                j <= parts@.len(),
                parts@.len() == pv.len(),
                forall|k: int| 0 <= k < parts@.len() ==> #[trigger] parts@[k]@ == pv[k],
                tv == pv.map_values(|p: Seq<char>| trim(p)),
                out@.map_values(|p: Vec<char>| p@) == before + tv.take(j as int).filter(
                    |p: Seq<char>| p.len() > 0,
                ),
            decreases parts.len() - j,
        {
            let t = trim_chars(&parts[j]);
            proof {
                reveal(Seq::filter);
                assert(tv.take(j + 1).drop_last() =~= tv.take(j as int));
            }
            let ghost mid = out@.map_values(|p: Vec<char>| p@);
            if t.len() > 0 {
                out.push(t);
                assert(out@.map_values(|p: Vec<char>| p@) =~= mid.push(tv[j as int]));
            }
            j += 1;
        }
        assert(tv.take(j as int) =~= tv);
        i += 1;
    }
    assert(sv.take(i as int) =~= sv);
    out
}

/// The candidate documents of `entry`, as paths (`target_list`); the
/// program around the interface checks which of them exist.
pub fn pdf_target_candidates(entry: &Entry) -> (r: Vec<String>)
    ensures
        texts(r@) == target_list(*entry).map_values(|t: (Seq<char>, bool)| t.0),
{
    let (paths, _) = target_list_exec(entry);
    paths
}

/// The candidate documents and whether each is named as a PDF.
fn target_list_exec(entry: &Entry) -> (r: (Vec<String>, Vec<bool>))
    ensures
        r.0@.len() == r.1@.len(),
        r.0@.len() == target_list(*entry).len(),
        forall|i: int| 0 <= i < r.0@.len() ==> (#[trigger] r.0@[i])@ == target_list(*entry)[i].0,
        forall|i: int| 0 <= i < r.1@.len() ==> #[trigger] r.1@[i] == target_list(*entry)[i].1,
        texts(r.0@) == target_list(*entry).map_values(|t: (Seq<char>, bool)| t.0),
{
    let dir = match parent(entry.provenance.file_path.as_str()) {
        Some(d) => d,
        None => String::from_str("."),
    };
    let mut cands = pieces_of(entry, "pdf");
    let mut more = pieces_of(entry, "file");
    let ghost a = cands@.map_values(|p: Vec<char>| p@);
    let ghost b = more@.map_values(|p: Vec<char>| p@);
    cands.append(&mut more);
    let ghost cv = a + b;
    assert(cands@.map_values(|p: Vec<char>| p@) =~= cv);
    let ghost tl = target_list(*entry);
    let pdf_ext: Vec<char> = vec!['.', 'p', 'd', 'f'];
    proof {
        reveal_strlit(".pdf");
        assert(pdf_ext@ =~= ".pdf"@);
    }
    let mut paths: Vec<String> = Vec::new();
    let mut named: Vec<bool> = Vec::new();
    let mut i: usize = 0;
    while i < cands.len()
        invariant
            i <= cands@.len(),
            cands@.map_values(|p: Vec<char>| p@) == cv,
            tl == target_list(*entry),
            tl == cv.map_values(|c: Seq<char>| (join_path(bib_dir_of(*entry), c), ends_with(c, ".pdf"@))),
            dir@ == bib_dir_of(*entry),
            pdf_ext@ == ".pdf"@,
            paths@.len() == i,
            named@.len() == i,
            forall|k: int| 0 <= k < i ==> (#[trigger] paths@[k])@ == tl[k].0,
            forall|k: int| 0 <= k < i ==> #[trigger] named@[k] == tl[k].1,
        decreases cands.len() - i,
    {
        assert(cv[i as int] == cands@[i as int]@);
        paths.push(join_path_text(dir.as_str(), string_of(&cands[i]).as_str()));
        named.push(ends_with_exec(&cands[i], &pdf_ext));
        i += 1;
    }
    assert(texts(paths@) =~= tl.map_values(|t: (Seq<char>, bool)| t.0));
    (paths, named)
}

/// The document to open for `entry` (`pdf_target`), where `exists[i]` says
/// whether the `i`-th candidate of `pdf_target_candidates` exists; an error
/// names the entry when there is none.
pub fn pdf_target_for(entry: &Entry, exists: &[bool]) -> (r: Result<String, String>)
    requires
        exists@.len() == target_list(*entry).len(),
    ensures
        match pdf_target(*entry, exists@) {
            Some(t) => r matches Ok(p) && p@ == t,
            None => r matches Err(m) && m@ == "No PDF path found for "@ + entry.id.0@,
        },
{
    let (paths, named) = target_list_exec(entry);
    let ghost tl = target_list(*entry);
    let mut i: usize = 0;
    while i < paths.len()
        invariant
            i <= paths@.len(),
            paths@.len() == named@.len(),
            paths@.len() == tl.len(),
            exists@.len() == tl.len(),
            tl == target_list(*entry),
            forall|k: int| 0 <= k < paths@.len() ==> (#[trigger] paths@[k])@ == tl[k].0,
            forall|k: int| 0 <= k < named@.len() ==> #[trigger] named@[k] == tl[k].1,
            first_usable(tl, exists@, 0) == first_usable(tl, exists@, i as int),
        decreases paths.len() - i,
    {
        if exists[i] || named[i] {
            return Ok(paths[i].clone());
        }
        i += 1;
    }
    match entry.get_field("url") {
        Some(u) => Ok(u.to_owned()),
        None => {
            let mut m = String::from_str("No PDF path found for ");
            m.append(entry.id.0.as_str());
            Err(m)
        },
    }
}

} // verus!
