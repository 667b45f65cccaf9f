//! Bibliography entries, the bibliography that holds them, and the loading
//! of BibTeX sources into it.
pub mod fields;
pub mod scan;
pub mod bibtex;
pub mod cycles;
pub mod load;
pub mod format;
pub mod sort;

use vstd::prelude::*;

use crate::text::{
    chars_of, lower_seq, parse_unsigned, parse_unsigned_exec, split, split_exec, string_of,
    to_ascii_lower, trim, trim_chars,
};
use self::fields::{field_insert, field_lookup, FieldMap};

verus! {

/// The citation key that identifies an entry.
#[derive(Debug, Clone, PartialEq, Eq, Hash)]
pub struct EntryId(pub String);

impl EntryId {
    /// An identifier holding the text `value`.
    pub fn from(value: &str) -> (r: EntryId)
        ensures
            r.0@ == value@,
    {
        EntryId(value.to_owned())
    }

    /// An identifier holding `value`.
    pub fn new(value: String) -> (r: EntryId)
        ensures
            r.0@ == value@,
    {
        EntryId(value)
    }

    /// The citation key as text.
    pub fn to_text(&self) -> (r: String)
        ensures
            r@ == self.0@,
    {
        self.0.clone()
    }
}

/// Where an entry was read from: its file, its lines, and its character
/// range in the file's text.
#[derive(Debug, Clone, PartialEq, Eq)]
pub struct Provenance {
    pub file_path: String,
    pub line_start: usize,
    pub line_end: usize,
    pub byte_start: usize,
    pub byte_end: usize,
}

/// One bibliography entry.
#[derive(Debug, Clone, PartialEq, Eq)]
pub struct Entry {
    pub id: EntryId,
    pub entry_type: String,
    pub fields: FieldMap,
    pub provenance: Provenance,
}

/// The abstract form of an entry.
pub struct EntryView {
    pub id: Seq<char>,
    pub entry_type: Seq<char>,
    pub fields: Seq<(Seq<char>, Seq<char>)>,
    pub file_path: Seq<char>,
    pub line_start: nat,
    pub line_end: nat,
    pub byte_start: nat,
    pub byte_end: nat,
}

impl View for Entry {
    type V = EntryView;

    open spec fn view(&self) -> EntryView {
        EntryView {
            id: self.id.0@,
            entry_type: self.entry_type@,
            fields: self.fields@,
            file_path: self.provenance.file_path@,
            line_start: self.provenance.line_start as nat,
            line_end: self.provenance.line_end as nat,
            byte_start: self.provenance.byte_start as nat,
            byte_end: self.provenance.byte_end as nat,
        }
    }
}

/// The `" and "` that separates author names.
pub open spec fn and_separator() -> Seq<char> {
    seq![' ', 'a', 'n', 'd', ' ']
}

/// The author list of an `author` field value: the parts between `" and "`,
/// trimmed, without empty ones.
pub open spec fn author_list(value: Seq<char>) -> Seq<Seq<char>> {
    split(value, and_separator()).map_values(|a: Seq<char>| trim(a)).filter(
        |a: Seq<char>| a.len() > 0,
    )
}

/// The name `author`.
pub open spec fn author_key() -> Seq<char> {
    seq!['a', 'u', 't', 'h', 'o', 'r']
}

/// The name `title`.
pub open spec fn title_key() -> Seq<char> {
    seq!['t', 'i', 't', 'l', 'e']
}

/// The name `year`.
pub open spec fn year_key() -> Seq<char> {
    seq!['y', 'e', 'a', 'r']
}

/// The largest `u32`.
pub open spec fn u32_max() -> nat {
    0xffff_ffff
}

impl Entry {
    /// The entry's internal invariant: its field names are unique.
    pub open spec fn wf(&self) -> bool {
        self.fields.wf()
    }

    /// The value of field `key`, whose name is matched ASCII
    /// case-insensitively (field names are stored in lower case).
    pub open spec fn field(&self, key: Seq<char>) -> Option<Seq<char>> {
        field_lookup(self.fields@, lower_seq(key))
    }

    /// The authors named in the `author` field.
    pub open spec fn author_names(&self) -> Seq<Seq<char>> {
        match self.field(author_key()) {
            Some(v) => author_list(v),
            None => Seq::empty(),
        }
    }

    /// The year, when the trimmed `year` field is a number that fits a `u32`.
    pub open spec fn year_value(&self) -> Option<nat> {
        match self.field(year_key()) {
            Some(v) => parse_unsigned(trim(v), u32_max()),
            None => None,
        }
    }

    /// The value of the field `key`, matched ASCII case-insensitively.
    pub fn get_field(&self, key: &str) -> (r: Option<&str>)
        ensures
            r matches Some(v) ==> self.field(key@) == Some(v@),
            r is None ==> self.field(key@) is None,
    {
        let lowered = string_of(&to_ascii_lower(&chars_of(key)));
        match self.fields.get(&lowered) {
            Some(v) => Some(v.as_str()),
            None => None,
        }
    }

    /// The authors, in order: the `author` field split at `" and "`, each
    /// part trimmed, empty parts dropped.
    pub fn authors(&self) -> (r: Vec<String>)
        ensures
            r@.len() == self.author_names().len(),
            forall|i: int| 0 <= i < r@.len() ==> #[trigger] r@[i]@ == self.author_names()[i],
    {
        let mut out: Vec<String> = Vec::new();
        let value = match self.get_field("author") {
            Some(v) => v,
            None => {
                proof {
                    reveal_strlit("author");
                    assert("author"@ =~= author_key());
                    assert(lower_seq(author_key()) =~= author_key());
                }
                return out;
            },
        };
        proof {
            reveal_strlit("author");
            assert("author"@ =~= author_key());
            assert(lower_seq(author_key()) =~= author_key());
        }
        let chars = chars_of(value);
        let sep: Vec<char> = vec![' ', 'a', 'n', 'd', ' '];
        assert(sep@ =~= and_separator());
        let parts = split_exec(&chars, &sep);
        let ghost parts_view = split(chars@, sep@);
        let ghost trimmed = parts_view.map_values(|a: Seq<char>| trim(a));
        let mut i: usize = 0;
        while i < parts.len()
            invariant
                i <= parts@.len(),
                parts@.len() == parts_view.len(),
                trimmed == parts_view.map_values(|a: Seq<char>| trim(a)),
                forall|k: int| 0 <= k < parts@.len() ==> #[trigger] parts@[k]@ == parts_view[k],
                out@.len() == trimmed.take(i as int).filter(|a: Seq<char>| a.len() > 0).len(),
                forall|k: int|
                    0 <= k < out@.len() ==> #[trigger] out@[k]@ == trimmed.take(i as int).filter(
                        |a: Seq<char>| a.len() > 0,
                    )[k],
            decreases parts@.len() - i,
        {
            let piece = trim_chars(&parts[i]);
            let ghost before = trimmed.take(i as int);
            assert(trimmed.take(i + 1) =~= before.push(trimmed[i as int]));
            proof {
                reveal(Seq::filter);
                assert(trimmed.take(i + 1).drop_last() =~= before);
            }
            if piece.len() > 0 {
                out.push(string_of(&piece));
            }
            i += 1;
        }
        assert(trimmed.take(parts@.len() as int) =~= trimmed);
        out
    }

    /// The `title` field.
    pub fn title(&self) -> (r: Option<&str>)
        ensures
            r matches Some(v) ==> self.field(title_key()) == Some(v@),
            r is None ==> self.field(title_key()) is None,
    {
        proof {
            reveal_strlit("title");
            assert("title"@ =~= title_key());
            assert(lower_seq(title_key()) =~= title_key());
        }
        self.get_field("title")
    }

    /// The `year` field read as a number.
    pub fn year(&self) -> (r: Option<u32>)
        ensures
            r matches Some(y) ==> self.year_value() == Some(y as nat),
            r is None ==> self.year_value() is None,
    {
        proof {
            reveal_strlit("year");
            assert("year"@ =~= year_key());
            assert(lower_seq(year_key()) =~= year_key());
        }
        match self.get_field("year") {
            Some(v) => {
                let t = trim_chars(&chars_of(v));
                match parse_unsigned_exec(&t, 0xffff_ffff) {
                    Some(n) => Some(n as u32),
                    None => None,
                }
            },
            None => None,
        }
    }

    /// Stores `value` under the lower-cased name `key`.
    pub fn set_field(&mut self, key: &str, value: &str)
        requires
            old(self).wf(),
        ensures
            final(self).wf(),
            final(self).fields@ == field_insert(old(self).fields@, lower_seq(key@), value@),
            final(self).id == old(self).id,
            final(self).entry_type == old(self).entry_type,
            final(self).provenance == old(self).provenance,
    {
        let lowered = string_of(&to_ascii_lower(&chars_of(key)));
        self.fields.insert(lowered, value.to_owned());
    }
}

/// A citation key that occurs twice.
#[derive(Debug, Clone, PartialEq, Eq)]
pub struct DuplicateError {
    pub id: EntryId,
    pub existing_path: String,
    pub duplicate_path: String,
}

impl DuplicateError {
    /// The error text: "duplicate citekey `ID` found in `DUP`; already loaded
    /// from `EXISTING`".
    pub fn message(&self) -> (r: String)
        ensures
            r@ == "duplicate citekey `"@ + self.id.0@ + "` found in `"@ + self.duplicate_path@
                + "`; already loaded from `"@ + self.existing_path@ + "`"@,
    {
        let mut s = String::from_str("duplicate citekey `");
        s.append(self.id.0.as_str());
        s.append("` found in `");
        s.append(self.duplicate_path.as_str());
        s.append("`; already loaded from `");
        s.append(self.existing_path.as_str());
        s.append("`");
        s
    }
}

/// Why merging two bibliographies failed.
#[derive(Debug, Clone, PartialEq, Eq)]
pub enum MergeError {
    Duplicate(DuplicateError),
}

/// Why loading a bibliography failed.
#[derive(Debug, Clone, PartialEq, Eq)]
pub enum LoadError {
    /// The file could not be read; `message` says why.
    Io { path: String, message: String },
    Duplicate(DuplicateError),
}

/// The paths in `sources` after adding `p` when it is not there yet.
pub open spec fn push_source_spec(sources: Seq<Seq<char>>, p: Seq<char>) -> Seq<Seq<char>> {
    if sources.contains(p) {
        sources
    } else {
        sources.push(p)
    }
}

/// The paths in `sources` after adding each of `more` in turn.
pub open spec fn push_sources_spec(sources: Seq<Seq<char>>, more: Seq<Seq<char>>) -> Seq<
    Seq<char>,
>
    decreases more.len(),
{
    if more.len() == 0 {
        sources
    } else {
        push_source_spec(push_sources_spec(sources, more.drop_last()), more.last())
    }
}

/// A collection of entries with unique citation keys, and the files they
/// came from.
#[derive(Debug, Clone, Default)]
pub struct Bibliography {
    entries: Vec<Entry>,
    sources: Vec<String>,
}

/// Whether some entry of `es` has the citation key `id`.
pub open spec fn has_id(es: Seq<Entry>, id: Seq<char>) -> bool {
    exists|i: int| 0 <= i < es.len() && (#[trigger] es[i]).id.0@ == id
}

/// The position of the entry with citation key `id` in `es`.
pub open spec fn id_index(es: Seq<Entry>, id: Seq<char>) -> int {
    choose|i: int| 0 <= i < es.len() && (#[trigger] es[i]).id.0@ == id
}

/// No citation key occurs twice in `es`.
pub open spec fn ids_unique(es: Seq<Entry>) -> bool {
    forall|i: int, j: int| 0 <= i < j < es.len() ==> es[i].id.0@ != es[j].id.0@
}

/// The first position at or after `j` of an entry of `b` whose citation key
/// also occurs in `a`.
pub open spec fn first_shared(a: Seq<Entry>, b: Seq<Entry>, j: int) -> Option<int>
    decreases b.len() - j,
{
    if j < 0 || j >= b.len() {
        None
    } else if has_id(a, b[j].id.0@) {
        Some(j)
    } else {
        first_shared(a, b, j + 1)
    }
}

pub proof fn lemma_first_shared_none(a: Seq<Entry>, b: Seq<Entry>, j: int)
    requires
        0 <= j,
        first_shared(a, b, j) is None,
    ensures
        forall|k: int| j <= k < b.len() ==> !has_id(a, (#[trigger] b[k]).id.0@),
    decreases b.len() - j,
{
    if j < b.len() {
        lemma_first_shared_none(a, b, j + 1);
    }
}

/// No path occurs twice in `ps`.
pub open spec fn paths_unique(ps: Seq<Seq<char>>) -> bool {
    forall|i: int, j: int| 0 <= i < j < ps.len() ==> ps[i] != ps[j]
}

pub proof fn lemma_push_source_unique(sources: Seq<Seq<char>>, p: Seq<char>)
    requires
        paths_unique(sources),
    ensures
        paths_unique(push_source_spec(sources, p)),
        push_source_spec(sources, p).contains(p),
        forall|q: Seq<char>| sources.contains(q) ==> push_source_spec(sources, p).contains(q),
{
    if !sources.contains(p) {
        let ns = sources.push(p);
        assert forall|i: int, j: int| 0 <= i < j < ns.len() implies ns[i] != ns[j] by {
            if j == sources.len() {
                assert(sources[i] == ns[i]);
            }
        }
        assert(ns[sources.len() as int] == p);
        assert forall|q: Seq<char>| sources.contains(q) implies ns.contains(q) by {
            let k = choose|k: int| 0 <= k < sources.len() && sources[k] == q;
            assert(ns[k] == q);
        }
    }
}

impl Bibliography {
    /// The entries, in the order in which they were added.
    pub closed spec fn entries_view(&self) -> Seq<Entry> {
        self.entries@
    }

    /// The source files, each once, in the order first seen.
    pub closed spec fn sources_view(&self) -> Seq<Seq<char>> {
        self.sources@.map_values(|s: String| s@)
    }

    /// The bibliography's internal invariant: citation keys and source paths
    /// are unique and every entry is well formed.
    pub open spec fn wf(&self) -> bool {
        &&& ids_unique(self.entries_view())
        &&& paths_unique(self.sources_view())
        &&& forall|i: int|
            0 <= i < self.entries_view().len() ==> (#[trigger] self.entries_view()[i]).wf()
    }

    /// Whether an entry with citation key `id` is present.
    pub open spec fn contains_id(&self, id: Seq<char>) -> bool {
        has_id(self.entries_view(), id)
    }

    /// The entry with citation key `id` (meaningful when present).
    pub open spec fn entry_with_id(&self, id: Seq<char>) -> Entry {
        self.entries_view()[id_index(self.entries_view(), id)]
    }

    /// An empty bibliography.
    pub fn new() -> (r: Bibliography)
        ensures
            r.entries_view() == Seq::<Entry>::empty(),
            r.sources_view() == Seq::<Seq<char>>::empty(),
            r.wf(),
    {
        let r = Bibliography { entries: Vec::new(), sources: Vec::new() };
        assert(r.sources_view() =~= Seq::<Seq<char>>::empty());
        r
    }

    /// The position of the entry with citation key `id`.
    fn position(&self, id: &String) -> (r: Option<usize>)
        ensures
            r matches Some(i) ==> i < self.entries_view().len() && self.entries_view()[i as int].id.0@
                == id@,
            r is None ==> !self.contains_id(id@),
    {
        let mut i: usize = 0;
        while i < self.entries.len()
            invariant
                i <= self.entries@.len(),
                forall|k: int| 0 <= k < i ==> (#[trigger] self.entries@[k]).id.0@ != id@,
            decreases self.entries.len() - i,
        {
            if self.entries[i].id.0 == *id {
                return Some(i);
            }
            i += 1;
        }
        None
    }

    /// Records `source` unless it is already recorded.
    fn push_source(&mut self, source: &String)
        requires
            paths_unique(old(self).sources_view()),
        ensures
            final(self).sources_view() == push_source_spec(old(self).sources_view(), source@),
            final(self).entries_view() == old(self).entries_view(),
            paths_unique(final(self).sources_view()),
    {
        proof {
            lemma_push_source_unique(self.sources_view(), source@);
        }
        let mut i: usize = 0;
        while i < self.sources.len()
            invariant
                i <= self.sources@.len(),
                paths_unique(self.sources_view()),
                forall|k: int| 0 <= k < i ==> (#[trigger] self.sources@[k])@ != source@,
            decreases self.sources.len() - i,
        {
            if self.sources[i] == *source {
                assert(self.sources_view()[i as int] == source@);
                return;
            }
            i += 1;
        }
        assert(!self.sources_view().contains(source@)) by {
            if self.sources_view().contains(source@) {
                let k = choose|k: int|
                    0 <= k < self.sources_view().len() && self.sources_view()[k] == source@;
                assert(self.sources@[k]@ == source@);
            }
        }
        self.sources.push(source.clone());
        assert(self.sources_view() =~= old(self).sources_view().push(source@));
    }

    /// Adds `entry`, unless its citation key is taken: then the error names
    /// the key, the path of the entry already present and `entry`'s path.
    pub fn add_entry(&mut self, entry: Entry) -> (r: Result<(), DuplicateError>)
        requires
            old(self).wf(),
            entry.wf(),
        ensures
            final(self).wf(),
            r is Err <==> old(self).contains_id(entry.id.0@),
            r matches Err(e) ==> {
                &&& e.id.0@ == entry.id.0@
                &&& e.existing_path@ == old(self).entry_with_id(
                    entry.id.0@,
                ).provenance.file_path@
                &&& e.duplicate_path@ == entry.provenance.file_path@
                &&& *final(self) == *old(self)
            },
            r is Ok ==> final(self).entries_view() == old(self).entries_view().push(entry)
                && final(self).sources_view() == push_source_spec(
                old(self).sources_view(),
                entry.provenance.file_path@,
            ),
    {
        match self.position(&entry.id.0) {
            Some(i) => {
                proof {
                    let j = id_index(self.entries_view(), entry.id.0@);
                    assert(self.entries_view()[i as int].id.0@ == entry.id.0@);
                    assert(self.entries_view()[j].id.0@ == entry.id.0@);
                    assert(i == j);
                }
                Err(
                    DuplicateError {
                        id: EntryId(entry.id.0.clone()),
                        existing_path: self.entries[i].provenance.file_path.clone(),
                        duplicate_path: entry.provenance.file_path.clone(),
                    },
                )
            },
            None => {
                self.push_source(&entry.provenance.file_path);
                let ghost old_entries = self.entries@;
                self.entries.push(entry);
                assert forall|a: int, b: int|
                    0 <= a < b < self.entries@.len() implies self.entries@[a].id.0@
                    != self.entries@[b].id.0@ by {
                    if b == old_entries.len() {
                        assert(old_entries[a] == self.entries@[a]);
                    }
                }
                Ok(())
            },
        }
    }

    /// The entry with citation key `id`.
    pub fn get(&self, id: &EntryId) -> (r: Option<&Entry>)
        requires
            self.wf(),
        ensures
            r is Some <==> self.contains_id(id.0@),
            r matches Some(e) ==> *e == self.entry_with_id(id.0@),
    {
        match self.position(&id.0) {
            Some(i) => {
                proof {
                    let j = id_index(self.entries_view(), id.0@);
                    assert(self.entries_view()[j].id.0@ == id.0@);
                }
                Some(&self.entries[i])
            },
            None => None,
        }
    }

    /// Mutable access to the entry with citation key `id`. The caller keeps
    /// the key unchanged to keep the bibliography well formed.
    pub fn get_mut(&mut self, id: &EntryId) -> (r: Option<&mut Entry>)
        requires
            old(self).wf(),
        ensures
            r is Some <==> old(self).contains_id(id.0@),
            r matches Some(e) ==> {
                &&& *e == old(self).entry_with_id(id.0@)
                &&& final(self).entries_view() == old(self).entries_view().update(
                    id_index(old(self).entries_view(), id.0@),
                    *final(e),
                )
                &&& final(self).sources_view() == old(self).sources_view()
            },
            r is None ==> *final(self) == *old(self),
    {
        match self.position(&id.0) {
            Some(i) => {
                proof {
                    let j = id_index(self.entries_view(), id.0@);
                    assert(self.entries_view()[j].id.0@ == id.0@);
                }
                Some(&mut self.entries[i])
            },
            None => None,
        }
    }

    /// Moves all entries and sources of `other` into this bibliography,
    /// unless a citation key of `other` is already present: then nothing
    /// changes and the error names the first such entry of `other`.
    pub fn merge(&mut self, other: Bibliography) -> (r: Result<(), MergeError>)
        requires
            old(self).wf(),
            other.wf(),
        ensures
            final(self).wf(),
            r is Err <==> first_shared(old(self).entries_view(), other.entries_view(), 0) is Some,
            r matches Err(MergeError::Duplicate(e)) ==> {
                let j = first_shared(old(self).entries_view(), other.entries_view(), 0).unwrap();
                &&& e.id.0@ == other.entries_view()[j].id.0@
                &&& e.existing_path@ == old(self).entry_with_id(
                    e.id.0@,
                ).provenance.file_path@
                &&& e.duplicate_path@ == other.entries_view()[j].provenance.file_path@
                &&& *final(self) == *old(self)
            },
            r is Ok ==> final(self).entries_view() == old(self).entries_view()
                + other.entries_view() && final(self).sources_view() == push_sources_spec(
                old(self).sources_view(),
                other.sources_view(),
            ),
    {
        let mut j: usize = 0;
        while j < other.entries.len()
            invariant
                j <= other.entries@.len(),
                self.wf(),
                other.wf(),
                *self == *old(self),
                first_shared(self.entries_view(), other.entries_view(), 0) == first_shared(
                    self.entries_view(),
                    other.entries_view(),
                    j as int,
                ),
            decreases other.entries.len() - j,
        {
            match self.position(&other.entries[j].id.0) {
                Some(i) => {
                    proof {
                        let k = id_index(self.entries_view(), other.entries@[j as int].id.0@);
                        assert(self.entries_view()[i as int].id.0@ == other.entries@[j as int].id.0@);
                        assert(self.entries_view()[k].id.0@ == other.entries@[j as int].id.0@);
                        assert(i == k);
                    }
                    return Err(
                        MergeError::Duplicate(
                            DuplicateError {
                                id: EntryId(other.entries[j].id.0.clone()),
                                existing_path: self.entries[i].provenance.file_path.clone(),
                                duplicate_path: other.entries[j].provenance.file_path.clone(),
                            },
                        ),
                    );
                },
                None => {},
            }
            j += 1;
        }
        proof {
            lemma_first_shared_none(self.entries_view(), other.entries_view(), 0);
        }
        let Bibliography { entries: mut other_entries, sources: other_sources } = other;
        let mut k: usize = 0;
        while k < other_sources.len()
            invariant
                k <= other_sources@.len(),
                paths_unique(self.sources_view()),
                self.entries_view() == old(self).entries_view(),
                self.sources_view() == push_sources_spec(
                    old(self).sources_view(),
                    other_sources@.map_values(|s: String| s@).take(k as int),
                ),
            decreases other_sources.len() - k,
        {
            let ghost taken = other_sources@.map_values(|s: String| s@).take(k + 1);
            assert(taken.drop_last() =~= other_sources@.map_values(|s: String| s@).take(k as int));
            self.push_source(&other_sources[k]);
            k += 1;
        }
        assert(other_sources@.map_values(|s: String| s@).take(k as int) =~= other_sources@.map_values(
            |s: String| s@,
        ));
        let ghost before = self.entries@;
        self.entries.append(&mut other_entries);
        assert forall|a: int, b: int|
            0 <= a < b < self.entries@.len() implies self.entries@[a].id.0@
            != self.entries@[b].id.0@ by {
            if a >= before.len() {
            } else if b >= before.len() {
                let bo = b - before.len();
                assert(self.entries@[b] == other.entries_view()[bo]);
                if self.entries@[a].id.0@ == self.entries@[b].id.0@ {
                    assert(has_id(before, other.entries_view()[bo].id.0@));
                }
            }
        }
        Ok(())
    }

    /// The number of entries.
    pub fn len(&self) -> (r: usize)
        ensures
            r == self.entries_view().len(),
    {
        self.entries.len()
    }

    /// The entries, in the order in which they were added.
    pub fn iter(&self) -> (r: &[Entry])
        ensures
            r@ == self.entries_view(),
    {
        self.entries.as_slice()
    }

    /// The source files, in the order first seen.
    pub fn sources(&self) -> (r: &[String])
        ensures
            r@.map_values(|s: String| s@) == self.sources_view(),
    {
        self.sources.as_slice()
    }
}

} // verus!
