//! Writing an edited entry back into its BibTeX file: the entry's block is
//! found again in the file's current text and replaced by the entry,
//! rendered in the block's own layout; the rest of the file is kept.
pub mod blocks;
pub mod render;

use vstd::prelude::*;

use crate::domain::{Bibliography, Entry};
use crate::domain::fields::pairs_view;
use crate::search::occurs_in;
use crate::offsets::{byte_len, byte_offsets, char_index_at, char_index_of, is_char_offset};
use crate::text::{chars_of, ends_with, ends_with_exec, find, find_exec, push_str_chars, slice_range, string_of};
use self::blocks::{locate_entry_block, locate_spec};
use self::render::{ordered_fields, ordered_spec, render_style, style_of};

verus! {

/// Writes entries back into their files.
pub struct BibStore;

/// The line break of the block `b`: `\r\n` when it uses one, else `\n`.
pub open spec fn newline_of(b: Seq<char>) -> Seq<char> {
    if find(b, seq!['\r', '\n']) is Some {
        "\r\n"@
    } else {
        "\n"@
    }
}

/// The line break that ends the block `b`, if any.
pub open spec fn trailing_of(b: Seq<char>) -> Seq<char> {
    if ends_with(b, seq!['\r', '\n']) {
        "\r\n"@
    } else if ends_with(b, seq!['\n']) {
        "\n"@
    } else {
        Seq::empty()
    }
}

/// The first `n` field lines, each indented by `indent`, ended by `nl`, and
/// all but the last followed by a comma.
pub open spec fn styled_lines(
    fs: Seq<(Seq<char>, Seq<char>)>,
    indent: Seq<char>,
    nl: Seq<char>,
    n: int,
) -> Seq<char>
    decreases n,
{
    if n <= 0 {
        Seq::empty()
    } else {
        styled_lines(fs, indent, nl, n - 1) + indent + fs[n - 1].0 + " = {"@ + fs[n - 1].1 + "}"@
            + (if n < fs.len() {
            ","@
        } else {
            Seq::empty()
        }) + nl
    }
}

/// The entry with key `id` and fields `fields` rendered in the layout of
/// the block `b`: `b`'s type, spacing, delimiters, indentation and line
/// breaks; the fields in `b`'s order, then the others by name.
pub open spec fn render_spec(id: Seq<char>, fields: Seq<(Seq<char>, Seq<char>)>, b: Seq<char>) -> Seq<
    char,
> {
    let st = style_of(b);
    let nl = newline_of(b);
    let fs = ordered_spec(fields, b);
    "@"@ + st.entry_type + st.space + seq![st.open] + id + ","@ + nl + styled_lines(
        fs,
        st.field_indent,
        nl,
        fs.len() as int,
    ) + st.closing_indent + seq![st.close] + trailing_of(b)
}

/// The line text of the field `f`: its name, ` = {`, its value and `}`.
pub open spec fn field_text(f: (Seq<char>, Seq<char>)) -> Seq<char> {
    f.0 + " = {"@ + f.1 + "}"@
}

proof fn lemma_occurs_within(v: Seq<char>, a: Seq<char>, h: Seq<char>, c: Seq<char>)
    requires
        occurs_in(v, h),
    ensures
        occurs_in(v, a + h + c),
{
    let p = choose|p: int| 0 <= p && p + v.len() <= h.len() && #[trigger] h.subrange(p, p + v.len()) == v;
    let q = a.len() + p;
    assert((a + h + c).subrange(q, q + v.len()) =~= h.subrange(p, p + v.len()));
}

proof fn lemma_styled_lines_hold(fs: Seq<(Seq<char>, Seq<char>)>, indent: Seq<char>, nl: Seq<char>, n: int, k: int)
    requires
        0 <= k < n <= fs.len(),
    ensures
        occurs_in(field_text(fs[k]), styled_lines(fs, indent, nl, n)),
    decreases n,
{
    let prev = styled_lines(fs, indent, nl, n - 1);
    let tail = (if n < fs.len() {
        ","@
    } else {
        Seq::empty()
    }) + nl;
    assert(styled_lines(fs, indent, nl, n) =~= (prev + indent) + field_text(fs[n - 1]) + tail);
    if k == n - 1 {
        let z: int = 0;
        let v = field_text(fs[k]);
        assert(v.subrange(z, z + v.len()) =~= v);
        lemma_occurs_within(v, prev + indent, v, tail);
    } else {
        lemma_styled_lines_hold(fs, indent, nl, n - 1, k);
        lemma_occurs_within(field_text(fs[k]), Seq::empty(), prev, indent + field_text(fs[n - 1]) + tail);
        assert(Seq::<char>::empty() + prev + (indent + field_text(fs[n - 1]) + tail) =~= styled_lines(
            fs,
            indent,
            nl,
            n,
        ));
    }
}

/// Writing an entry back writes every one of its fields: for each field of
/// the entry, the new block holds the line text `name = {value}`.
pub proof fn lemma_render_writes_every_field(id: Seq<char>, fields: Seq<(Seq<char>, Seq<char>)>, b: Seq<char>)
    ensures
        forall|j: int| 0 <= j < fields.len() ==> occurs_in(#[trigger] field_text(fields[j]), render_spec(id, fields, b)),
{
    let st = style_of(b);
    let nl = newline_of(b);
    let fs = ordered_spec(fields, b);
    self::render::lemma_ordered_fields_keep_all(fields, b);
    let head = "@"@ + st.entry_type + st.space + seq![st.open] + id + ","@ + nl;
    let lines = styled_lines(fs, st.field_indent, nl, fs.len() as int);
    let foot = st.closing_indent + seq![st.close] + trailing_of(b);
    assert(render_spec(id, fields, b) == head + lines + foot);
    assert forall|j: int| 0 <= j < fields.len() implies occurs_in(
        #[trigger] field_text(fields[j]),
        render_spec(id, fields, b),
    ) by {
        vstd::seq_lib::to_multiset_contains(fields, fields[j]);
        vstd::seq_lib::to_multiset_contains(fs, fields[j]);
        assert(fields.contains(fields[j]));
        let k = choose|k: int| 0 <= k < fs.len() && fs[k] == fields[j];
        lemma_styled_lines_hold(fs, st.field_indent, nl, fs.len() as int, k);
        lemma_occurs_within(field_text(fields[j]), head, lines, foot);
    }
}

/// Renders `entry` in the layout of `original_block`.
pub fn render_entry(entry: &Entry, original_block: &[char]) -> (r: String)
    ensures
        r@ == render_spec(entry.id.0@, entry.fields@, original_block@),
{
    let crlf: Vec<char> = vec!['\r', '\n'];
    let lf: Vec<char> = vec!['\n'];
    assert(crlf@ =~= seq!['\r', '\n']);
    assert(lf@ =~= seq!['\n']);
    let newline: &str = if find_exec(original_block, &crlf, 0).is_some() {
        "\r\n"
    } else {
        "\n"
    };
    let style = render_style(original_block);
    let fields = ordered_fields(entry, original_block);
    let ghost fs = pairs_view(fields@);
    let mut out = String::new();
    out.append("@");
    out.append(style.entry_type.as_str());
    out.append(style.space_before_delimiter.as_str());
    out.push(style.open_delimiter);
    out.append(entry.id.0.as_str());
    out.append(",");
    out.append(newline);
    let ghost head = out@;
    let mut i: usize = 0;
    while i < fields.len()
        invariant
            i <= fields@.len(),
            fs == pairs_view(fields@),
            out@ == head + styled_lines(fs, style.field_indent@, newline@, i as int),
        decreases fields.len() - i,
    {
        let ghost before = out@;
        assert(fs[i as int] == (fields@[i as int].0@, fields@[i as int].1@));
        out.append(style.field_indent.as_str());
        out.append(fields[i].0.as_str());
        out.append(" = {");
        out.append(fields[i].1.as_str());
        out.append("}");
        let ghost mid = out@;
        if i + 1 < fields.len() {
            out.append(",");
        }
        out.append(newline);
        i += 1;
        proof {
            if i < fields@.len() {
                assert(out@ =~= mid + ","@ + newline@);
            } else {
                assert(out@ =~= mid + newline@);
            }
            assert(out@ =~= head + styled_lines(fs, style.field_indent@, newline@, i as int));
        }
    }
    out.append(style.closing_indent.as_str());
    out.push(style.close_delimiter);
    if ends_with_exec(original_block, &crlf) {
        out.append("\r\n");
    } else if ends_with_exec(original_block, &lf) {
        out.append("\n");
    }
    assert(out@ =~= render_spec(entry.id.0@, entry.fields@, original_block@));
    out
}

/// The message for an entry whose block cannot be found.
pub open spec fn not_found_message(id: Seq<char>, path: Seq<char>) -> Seq<char> {
    "unable to locate entry `"@ + id + "` in `"@ + path + "`"@
}

/// The entry's recorded byte range, clamped to the text `original`.
pub open spec fn clamped_range(e: Entry, original: Seq<char>) -> (nat, nat) {
    let total = byte_len(original);
    (
        if e.provenance.byte_start < total {
            e.provenance.byte_start as nat
        } else {
            total
        },
        if e.provenance.byte_end < total {
            e.provenance.byte_end as nat
        } else {
            total
        },
    )
}

/// Whether the entry's recorded range, when not empty once clamped, starts
/// and ends where characters of `original` start (or at its end): slicing
/// the text there is only possible then.
pub open spec fn range_on_chars(e: Entry, original: Seq<char>) -> bool {
    let (a, b) = clamped_range(e, original);
    a < b ==> is_char_offset(original, a) && is_char_offset(original, b)
}

/// The character positions of the entry's recorded range in `original`;
/// `(0, 0)` when the clamped range is empty.
pub open spec fn recorded_chars(e: Entry, original: Seq<char>) -> (nat, nat) {
    let (a, b) = clamped_range(e, original);
    if a < b {
        (char_index_at(original, a) as nat, char_index_at(original, b) as nat)
    } else {
        (0, 0)
    }
}

/// The text of the file after writing `entry` back into `original`, its
/// current text; an error when the entry's block cannot be found.
pub open spec fn updated_text(e: Entry, original: Seq<char>) -> Result<Seq<char>, Seq<char>> {
    match locate_spec(
        original,
        e.id.0@,
        recorded_chars(e, original).0,
        recorded_chars(e, original).1,
    ) {
        None => Err(not_found_message(e.id.0@, e.provenance.file_path@)),
        Some(r) => Ok(
            original.subrange(0, r.0) + render_spec(
                e.id.0@,
                e.fields@,
                original.subrange(r.0, r.1),
            ) + original.subrange(r.1, original.len() as int),
        ),
    }
}

impl BibStore {
    /// The new text of the entry's file, given `original`, its current
    /// text: the entry's block (found at its recorded range, or else by its
    /// citation key) replaced by the entry rendered in that block's layout.
    pub fn update_entry_in_text(entry: &Entry, original: &str) -> (r: Result<String, String>)
        requires
            range_on_chars(*entry, original@),
        ensures
            match updated_text(*entry, original@) {
                Ok(t) => r matches Ok(s) && s@ == t,
                Err(m) => r matches Err(s) && s@ == m,
            },
    {
        let src = chars_of(original);
        let id = chars_of(entry.id.0.as_str());
        let total = original.as_bytes().len();
        let offsets = byte_offsets(&src, total);
        let a = if entry.provenance.byte_start < total {
            entry.provenance.byte_start
        } else {
            total
        };
        let b = if entry.provenance.byte_end < total {
            entry.provenance.byte_end
        } else {
            total
        };
        let (ca, cb): (usize, usize) = if a < b {
            match (char_index_of(&src, &offsets, a), char_index_of(&src, &offsets, b)) {
                (Some(x), Some(y)) => (x, y),
                _ => (0, 0),
            }
        } else {
            (0, 0)
        };
        assert(ca == recorded_chars(*entry, original@).0 && cb == recorded_chars(*entry, original@).1);
        match locate_entry_block(&src, &id, ca, cb) {
            None => {
                let mut m = String::from_str("unable to locate entry `");
                m.append(entry.id.0.as_str());
                m.append("` in `");
                m.append(entry.provenance.file_path.as_str());
                m.append("`");
                Err(m)
            },
            Some((a, b)) => {
                let block = slice_range(&src, a, b);
                let replacement = render_entry(entry, &block);
                let mut out = string_of(&slice_range(&src, 0, a));
                out.append(replacement.as_str());
                push_str_chars(&mut out, &slice_range(&src, b, src.len()));
                Ok(out)
            },
        }
    }

    /// Checks that `entry` may be saved: it is in `bib`, and comes from the
    /// same file as the entry of `bib` with its key.
    pub fn check_entry(entry: &Entry, bib: &Bibliography) -> (r: Result<(), String>)
        requires
            bib.wf(),
        ensures
            !bib.contains_id(entry.id.0@) ==> (r matches Err(m) && m@ == "entry `"@ + entry.id.0@
                + "` is not present in bibliography"@),
            bib.contains_id(entry.id.0@) && bib.entry_with_id(entry.id.0@).provenance.file_path@
                != entry.provenance.file_path@ ==> (r matches Err(m) && m@ == "entry `"@
                + entry.id.0@ + "` provenance does not match bibliography source `"@
                + bib.entry_with_id(entry.id.0@).provenance.file_path@ + "`"@),
            bib.contains_id(entry.id.0@) && bib.entry_with_id(entry.id.0@).provenance.file_path@
                == entry.provenance.file_path@ ==> r is Ok,
    {
        let stored = match bib.get(&entry.id) {
            Some(s) => s,
            None => {
                let mut m = String::from_str("entry `");
                m.append(entry.id.0.as_str());
                m.append("` is not present in bibliography");
                return Err(m);
            },
        };
        if !(stored.provenance.file_path == entry.provenance.file_path) {
            let mut m = String::from_str("entry `");
            m.append(entry.id.0.as_str());
            m.append("` provenance does not match bibliography source `");
            m.append(stored.provenance.file_path.as_str());
            m.append("`");
            return Err(m);
        }
        Ok(())
    }

    /// Saves `entry` into its file, whose current text is `original`: the
    /// entry must be in `bib` and come from the same file (`check_entry`);
    /// the result is the file's new text (see `update_entry_in_text`).
    pub fn save_entry(entry: &Entry, bib: &Bibliography, original: &str) -> (r: Result<String, String>)
        requires
            bib.wf(),
            bib.contains_id(entry.id.0@) && bib.entry_with_id(entry.id.0@).provenance.file_path@
                == entry.provenance.file_path@ ==> range_on_chars(*entry, original@),
        ensures
            !bib.contains_id(entry.id.0@) ==> (r matches Err(m) && m@ == "entry `"@ + entry.id.0@
                + "` is not present in bibliography"@),
            bib.contains_id(entry.id.0@) && bib.entry_with_id(entry.id.0@).provenance.file_path@
                != entry.provenance.file_path@ ==> (r matches Err(m) && m@ == "entry `"@
                + entry.id.0@ + "` provenance does not match bibliography source `"@
                + bib.entry_with_id(entry.id.0@).provenance.file_path@ + "`"@),
            bib.contains_id(entry.id.0@) && bib.entry_with_id(entry.id.0@).provenance.file_path@
                == entry.provenance.file_path@ ==> match updated_text(*entry, original@) {
                Ok(t) => r matches Ok(s) && s@ == t,
                Err(m) => r matches Err(s) && s@ == m,
            },
    {
        match Self::check_entry(entry, bib) {
            Err(m) => Err(m),
            Ok(()) => Self::update_entry_in_text(entry, original),
        }
    }
}

} // verus!
