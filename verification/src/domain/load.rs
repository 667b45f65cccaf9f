//! Loading a bibliography from BibTeX source text.
use vstd::prelude::*;

use crate::offsets::{byte_len, byte_offset, byte_offsets, lemma_byte_offset_mono, lemma_byte_offset_slice};
use vstd::utf8::encode_utf8;
use crate::text::{chars_of, lower_seq, push_all, slice_range, starts_with, string_of, to_ascii_lower};
use super::{
    has_id, push_source_spec, Bibliography, DuplicateError, Entry, EntryId, EntryView, LoadError,
    MergeError, Provenance, push_sources_spec, first_shared,
};
use super::cycles::{resolution_bounded, resolution_bounded_exec};
use super::fields::{field_insert, pairs_view, FieldMap};
use super::scan::{
    blocks_view, citekey_of_block, extract_citekey_from_block, line_number, line_number_at,
    scan_blocks, scan_from, Block, BlockKind,
};
use super::bibtex::{bibtex_raw, parse_raw_bibtex, bibtex_parse, parse_bibtex, raws_view, RawEntry};

verus! {

/// An entry block that could not be turned into an entry.
#[derive(Debug, Clone)]
pub struct LoadWarning {
    pub line_start: usize,
    pub line_end: usize,
    pub citekey: Option<String>,
    pub message: String,
}

/// The outcome of loading one source: the entries and what was skipped.
#[derive(Debug, Clone)]
pub struct LoadResult {
    pub bibliography: Bibliography,
    pub warnings: Vec<LoadWarning>,
    pub total_blocks: usize,
    pub parsed_entries: usize,
}

/// The abstract form of a warning: its lines, the key its block seems to
/// name, and its message.
pub struct WarningView {
    pub line_start: nat,
    pub line_end: nat,
    pub citekey: Option<Seq<char>>,
    pub message: Seq<char>,
}

/// What loading has gathered after some blocks: the `@string` definitions
/// seen so far, the entries, the warnings and the counts.
#[verifier::ext_equal]
pub struct LoadState {
    pub abbrev: Seq<char>,
    pub entries: Seq<EntryView>,
    pub warnings: Seq<WarningView>,
    pub total: nat,
    pub parsed: nat,
}

/// The message of a warning for a block that parsed into no entry.
pub open spec fn no_data_message() -> Seq<char> {
    "Entry parsed but returned no data"@
}

/// The prefix of the message of a warning for a block the parser rejected.
pub open spec fn parse_error_prefix() -> Seq<char> {
    "Parse error: "@
}

pub open spec fn warning_view(w: LoadWarning) -> WarningView {
    WarningView {
        line_start: w.line_start as nat,
        line_end: w.line_end as nat,
        citekey: match w.citekey {
            Some(k) => Some(k@),
            None => None,
        },
        message: w.message@,
    }
}

/// Whether some entry of `es` has the citation key `k`.
pub open spec fn view_has_id(es: Seq<EntryView>, k: Seq<char>) -> bool {
    exists|i: int| 0 <= i < es.len() && (#[trigger] es[i]).id == k
}

/// The field table built from the parser's fields: names lower-cased, a
/// later field overriding an earlier one of the same name.
pub open spec fn lowered_fields(raw: Seq<(Seq<char>, Seq<char>)>) -> Seq<(Seq<char>, Seq<char>)>
    decreases raw.len(),
{
    if raw.len() == 0 {
        Seq::empty()
    } else {
        field_insert(lowered_fields(raw.drop_last()), lower_seq(raw.last().0), raw.last().1)
    }
}

/// The text handed to the parser for an entry block: the `@string`
/// definitions seen so far, a newline, and the block.
pub open spec fn combined_source(abbrev: Seq<char>, text: Seq<char>) -> Seq<char> {
    if abbrev.len() == 0 {
        text
    } else {
        abbrev + seq!['\n'] + text
    }
}

/// The state before any block.
pub open spec fn initial_state() -> LoadState {
    LoadState {
        abbrev: Seq::empty(),
        entries: Seq::empty(),
        warnings: Seq::empty(),
        total: 0,
        parsed: 0,
    }
}

/// One block of the source `src` of file `path`: `@string` blocks are
/// remembered, comments and preambles skipped, entry blocks parsed; an
/// entry whose key was already loaded is an error carrying that key.
pub open spec fn load_step(
    path: Seq<char>,
    src: Seq<char>,
    st: LoadState,
    blk: (BlockKind, int, int),
) -> Result<LoadState, Seq<char>> {
    let text = src.subrange(blk.1, blk.2);
    let counted = LoadState { total: st.total + 1, ..st };
    match blk.0 {
        BlockKind::StringDef => Ok(
            LoadState { abbrev: st.abbrev + text + seq!['\n'], ..counted },
        ),
        BlockKind::Comment => Ok(counted),
        BlockKind::Preamble => Ok(counted),
        BlockKind::Entry => entry_block_step(
            path,
            st,
            line_number(src, blk.1),
            line_number(
                src,
                if blk.2 > 0 {
                    blk.2 - 1
                } else {
                    0
                },
            ),
            byte_offset(src, blk.1),
            byte_offset(src, blk.2),
            citekey_of_block(text),
            parser_outcome(combined_source(st.abbrev, text)),
        ),
    }
}

/// What the parser makes of the text `c` handed to it: its entries, or the
/// text of its error when it rejects the text. A text whose abbreviations
/// or `crossref` and `xdata` links could lead back to themselves is not
/// handed to it (the parser would never return) and is rejected with
/// `circular_message`.
pub open spec fn parser_outcome(c: Seq<char>) -> Result<Seq<(Seq<char>, Seq<char>, Seq<(Seq<char>, Seq<char>)>)>, Seq<char>> {
    if resolution_bounded(bibtex_raw(c)) {
        bibtex_parse(c)
    } else {
        Err(circular_message())
    }
}

/// Why an entry block is not handed to the parser.
pub open spec fn circular_message() -> Seq<char> {
    "abbreviations or cross-references lead back to themselves"@
}

/// One entry block of file `path` on lines `ls` to `le` and bytes `bs` to
/// `be`, whose first line names the key `key`, given what the parser made of
/// it (its entries, or the text of its error): its first entry is added
/// unless its key was already loaded (an error carrying that key); a block
/// with no entry, or one the parser rejected, becomes a warning.
pub open spec fn entry_block_step(
    path: Seq<char>,
    st: LoadState,
    ls: nat,
    le: nat,
    bs: nat,
    be: nat,
    key: Option<Seq<char>>,
    outcome: Result<Seq<(Seq<char>, Seq<char>, Seq<(Seq<char>, Seq<char>)>)>, Seq<char>>,
) -> Result<LoadState, Seq<char>> {
    let counted = LoadState { total: st.total + 1, ..st };
    match outcome {
        Ok(es) => {
            if es.len() > 0 {
                let raw = es[0];
                if view_has_id(st.entries, raw.0) {
                    Err(raw.0)
                } else {
                    Ok(
                        LoadState {
                            entries: st.entries.push(
                                EntryView {
                                    id: raw.0,
                                    entry_type: raw.1,
                                    fields: lowered_fields(raw.2),
                                    file_path: path,
                                    line_start: ls,
                                    line_end: le,
                                    byte_start: bs,
                                    byte_end: be,
                                },
                            ),
                            parsed: st.parsed + 1,
                            ..counted
                        },
                    )
                }
            } else {
                Ok(
                    LoadState {
                        warnings: st.warnings.push(
                            WarningView { line_start: ls, line_end: le, citekey: None, message: no_data_message() },
                        ),
                        ..counted
                    },
                )
            }
        },
        Err(m) => Ok(
            LoadState {
                warnings: st.warnings.push(
                    WarningView { line_start: ls, line_end: le, citekey: key, message: parse_error_prefix() + m },
                ),
                ..counted
            },
        ),
    }
}

/// All blocks, in order, from the initial state; the first duplicate key
/// stops the load.
pub open spec fn load_fold(path: Seq<char>, src: Seq<char>, blocks: Seq<(BlockKind, int, int)>) -> Result<
    LoadState,
    Seq<char>,
>
    decreases blocks.len(),
{
    if blocks.len() == 0 {
        Ok(initial_state())
    } else {
        match load_fold(path, src, blocks.drop_last()) {
            Err(k) => Err(k),
            Ok(st) => load_step(path, src, st, blocks.last()),
        }
    }
}

/// What loading the text `src` of file `path` yields.
pub open spec fn load_outcome(path: Seq<char>, src: Seq<char>) -> Result<LoadState, Seq<char>> {
    load_fold(path, src, scan_from(src, 0))
}

/// The field table for the parser's fields `raw`.
fn build_fields(raw: &Vec<(String, String)>) -> (r: FieldMap)
    ensures
        r@ == lowered_fields(pairs_view(raw@)),
        r.wf(),
{
    let mut fm = FieldMap::new();
    let mut i: usize = 0;
    while i < raw.len()
        invariant
            i <= raw@.len(),
            fm.wf(),
            fm@ == lowered_fields(pairs_view(raw@).take(i as int)),
        decreases raw.len() - i,
    {
        let key = string_of(&to_ascii_lower(&chars_of(raw[i].0.as_str())));
        let value = raw[i].1.clone();
        assert(pairs_view(raw@).take(i + 1).drop_last() =~= pairs_view(raw@).take(i as int));
        fm.insert(key, value);
        i += 1;
    }
    assert(pairs_view(raw@).take(raw@.len() as int) =~= pairs_view(raw@));
    fm
}

/// The gathered state in exec form.
pub open spec fn state_of(
    bib: Bibliography,
    abbrev: Seq<char>,
    warnings: Seq<LoadWarning>,
    total: usize,
    parsed: usize,
) -> LoadState {
    LoadState {
        abbrev: abbrev,
        entries: bib.entries_view().map_values(|e: Entry| e@),
        warnings: warnings.map_values(|w: LoadWarning| warning_view(w)),
        total: total as nat,
        parsed: parsed as nat,
    }
}

/// What a load has gathered, apart from the `@string` definitions.
pub open spec fn result_state(res: LoadResult) -> LoadState {
    state_of(res.bibliography, Seq::empty(), res.warnings@, res.total_blocks, res.parsed_entries)
}

/// What the parser made of a block: its entries, or the text of its
/// error.
pub open spec fn parse_outcome(parsed: Result<Vec<RawEntry>, String>) -> Result<Seq<(Seq<char>, Seq<char>, Seq<(Seq<char>, Seq<char>)>)>, Seq<char>> {
    match parsed {
        Ok(v) => Ok(raws_view(v@)),
        Err(m) => Err(m@),
    }
}

/// The text of an optional string.
pub open spec fn opt_chars(o: Option<String>) -> Option<Seq<char>> {
    match o {
        Some(s) => Some(s@),
        None => None,
    }
}

/// Whether every message of `ws` is one of a load's two kinds.
pub open spec fn messages_ok(ws: Seq<LoadWarning>) -> bool {
    forall|k: int|
        0 <= k < ws.len() ==> (#[trigger] ws[k]).message@ == no_data_message() || starts_with(
            ws[k].message@,
            parse_error_prefix(),
        )
}

/// Whether every entry of `b` comes from the file `path`.
pub open spec fn all_from(b: Bibliography, path: Seq<char>) -> bool {
    forall|k: int| 0 <= k < b.entries_view().len() ==> (#[trigger] b.entries_view()[k]).provenance.file_path@ == path
}

/// Adds the entry block of file `path` on lines `line_start` to
/// `line_end` and bytes `byte_start` to `byte_end`, whose first line names
/// `citekey`, to `res`, given `parsed`, what the parser made of the block
/// (its entries, or the text of its error): see `entry_block_step`. A
/// rejected block's warning reads `Parse error: ` and the error; a block
/// without an entry gives `Entry parsed but returned no data`. On a
/// duplicate key, `res` is left as it was.
pub fn add_parsed_block(
    res: &mut LoadResult,
    path: &str,
    line_start: usize,
    line_end: usize,
    byte_start: usize,
    byte_end: usize,
    citekey: Option<String>,
    parsed: Result<Vec<RawEntry>, String>,
) -> (r: Result<(), LoadError>)
    requires
        old(res).bibliography.wf(),
        old(res).total_blocks < usize::MAX,
        old(res).parsed_entries <= old(res).total_blocks,
    ensures
        match entry_block_step(
            path@,
            result_state(*old(res)),
            line_start as nat,
            line_end as nat,
            byte_start as nat,
            byte_end as nat,
            opt_chars(citekey),
            parse_outcome(parsed),
        ) {
            Err(k) => r matches Err(LoadError::Duplicate(e)) && e.id.0@ == k && e.existing_path@
                == path@ && e.duplicate_path@ == path@ && *final(res) == *old(res),
            Ok(st) => r is Ok && result_state(*final(res)) == st,
        },
        final(res).bibliography.wf(),
        old(res).bibliography.sources_view().contains(path@) ==> final(res).bibliography.sources_view()
            == old(res).bibliography.sources_view(),
        final(res).parsed_entries <= final(res).total_blocks,
        messages_ok(old(res).warnings@) ==> messages_ok(final(res).warnings@),
        all_from(old(res).bibliography, path@) ==> all_from(final(res).bibliography, path@),
        r is Ok ==> (parsed matches Err(m) ==> final(res).warnings@.last().message@
            == parse_error_prefix() + m@),
        r is Ok ==> (parsed matches Ok(v) ==> (v@.len() == 0 ==> final(res).warnings@.last().message@
            == no_data_message())),
{
    let ghost st = result_state(*res);
    let ghost old_res = *res;
    match parsed {
        Ok(raws) => {
            if raws.len() > 0 {
                let raw = &raws[0];
                let id = EntryId(raw.key.clone());
                match res.bibliography.get(&id) {
                    Some(_) => {
                        proof {
                            let j = super::id_index(res.bibliography.entries_view(), id.0@);
                            assert(st.entries[j] == res.bibliography.entries_view()[j]@);
                            assert(view_has_id(st.entries, id.0@));
                        }
                        return Err(
                            LoadError::Duplicate(
                                DuplicateError {
                                    id,
                                    existing_path: path.to_owned(),
                                    duplicate_path: path.to_owned(),
                                },
                            ),
                        );
                    },
                    None => {},
                }
                assert(!view_has_id(st.entries, id.0@)) by {
                    if view_has_id(st.entries, id.0@) {
                        let j = choose|j: int|
                            0 <= j < st.entries.len() && (#[trigger] st.entries[j]).id == id.0@;
                        assert(res.bibliography.entries_view()[j].id.0@ == id.0@);
                    }
                }
                let entry = Entry {
                    id,
                    entry_type: raw.entry_type.clone(),
                    fields: build_fields(&raw.fields),
                    provenance: Provenance {
                        file_path: path.to_owned(),
                        line_start,
                        line_end,
                        byte_start,
                        byte_end,
                    },
                };
                let ghost ev = entry@;
                let added = res.bibliography.add_entry(entry);
                assert(added is Ok);
                res.total_blocks = res.total_blocks + 1;
                res.parsed_entries = res.parsed_entries + 1;
                assert(res.bibliography.entries_view().map_values(|e: Entry| e@) =~= st.entries.push(ev));
                assert(result_state(*res) =~= LoadState {
                    entries: st.entries.push(ev),
                    parsed: st.parsed + 1,
                    total: st.total + 1,
                    ..st
                });
                proof {
                    if all_from(old_res.bibliography, path@) {
                        assert forall|k: int| 0 <= k < res.bibliography.entries_view().len() implies (
                        #[trigger] res.bibliography.entries_view()[k]).provenance.file_path@ == path@ by {
                            if k < old_res.bibliography.entries_view().len() {
                                assert(res.bibliography.entries_view()[k] == old_res.bibliography.entries_view()[k]);
                            }
                        }
                    }
                }
                Ok(())
            } else {
                res.warnings.push(
                    LoadWarning {
                        line_start,
                        line_end,
                        citekey: None,
                        message: String::from_str("Entry parsed but returned no data"),
                    },
                );
                res.total_blocks = res.total_blocks + 1;
                proof {
                    reveal_strlit("Entry parsed but returned no data");
                }
                assert(res.warnings@.map_values(|w: LoadWarning| warning_view(w)) =~= st.warnings.push(
                    WarningView {
                        line_start: line_start as nat,
                        line_end: line_end as nat,
                        citekey: None,
                        message: no_data_message(),
                    },
                ));
                assert(result_state(*res) =~= LoadState {
                    warnings: st.warnings.push(
                        WarningView {
                            line_start: line_start as nat,
                            line_end: line_end as nat,
                            citekey: None,
                            message: no_data_message(),
                        },
                    ),
                    total: st.total + 1,
                    ..st
                });
                Ok(())
            }
        },
        Err(detail) => {
            let mut message = String::from_str("Parse error: ");
            message.append(detail.as_str());
            proof {
                reveal_strlit("Parse error: ");
                reveal_strlit("Entry parsed but returned no data");
                assert(message@.subrange(0, 13) =~= "Parse error: "@);
                assert(message@ != no_data_message()) by {
                    assert(message@[0] == 'P');
                    assert(no_data_message()[0] == 'E');
                }
            }
            res.warnings.push(LoadWarning { line_start, line_end, citekey, message });
            res.total_blocks = res.total_blocks + 1;
            assert(res.warnings@.map_values(|w: LoadWarning| warning_view(w)) =~= st.warnings.push(
                WarningView {
                    line_start: line_start as nat,
                    line_end: line_end as nat,
                    citekey: opt_chars(citekey),
                    message: parse_error_prefix() + detail@,
                },
            ));
            assert(result_state(*res) =~= LoadState {
                warnings: st.warnings.push(
                    WarningView {
                        line_start: line_start as nat,
                        line_end: line_end as nat,
                        citekey: opt_chars(citekey),
                        message: parse_error_prefix() + detail@,
                    },
                ),
                total: st.total + 1,
                ..st
            });
            Ok(())
        },
    }
}

/// The step on an entry block keeps the `@string` text, whatever it is.
proof fn lemma_entry_step_abbrev(
    path: Seq<char>,
    st: LoadState,
    a: Seq<char>,
    ls: nat,
    le: nat,
    bs: nat,
    be: nat,
    key: Option<Seq<char>>,
    outcome: Result<Seq<(Seq<char>, Seq<char>, Seq<(Seq<char>, Seq<char>)>)>, Seq<char>>,
)
    ensures
        entry_block_step(path, LoadState { abbrev: a, ..st }, ls, le, bs, be, key, outcome) == match entry_block_step(
            path,
            st,
            ls,
            le,
            bs,
            be,
            key,
            outcome,
        ) {
            Ok(x) => Ok::<LoadState, Seq<char>>(LoadState { abbrev: a, ..x }),
            Err(k) => Err(k),
        },
{
}

/// Loads the BibTeX text `source` of the file `path`: every entry block is
/// parsed (after the `@string` definitions before it); blocks the parser
/// rejects or that hold no entry become warnings; a citation key that occurs
/// twice is an error. Provenance ranges are byte offsets into `source`.
pub fn load_from_file_with_diagnostics(path: &str, source: &str) -> (r: Result<
    LoadResult,
    LoadError,
>)
    requires
        source@.len() < usize::MAX,
    ensures
        match load_outcome(path@, source@) {
            Err(k) => r matches Err(LoadError::Duplicate(e)) && e.id.0@ == k && e.existing_path@
                == path@ && e.duplicate_path@ == path@,
            Ok(st) => r matches Ok(res) && {
                &&& res.bibliography.wf()
                &&& res.bibliography.entries_view().map_values(|e: Entry| e@) == st.entries
                &&& res.bibliography.sources_view() == seq![path@]
                &&& res.warnings@.map_values(|w: LoadWarning| warning_view(w)) == st.warnings
                &&& messages_ok(res.warnings@)
                &&& res.total_blocks == st.total
                &&& res.parsed_entries == st.parsed
            },
        },
{
    let chars = chars_of(source);
    let total_bytes = source.as_bytes().len();
    let offsets = byte_offsets(&chars, total_bytes);
    let blocks = scan_blocks(&chars);
    let path_string = path.to_owned();
    let mut bib = Bibliography::new();
    bib.push_source(&path_string);
    assert(bib.sources_view() =~= seq![path@]);
    let mut res = LoadResult { bibliography: bib, warnings: Vec::new(), total_blocks: 0, parsed_entries: 0 };
    let mut abbrev: Vec<char> = Vec::new();
    let ghost bv = blocks_view(blocks@);
    assert(bv.take(0) =~= Seq::<(BlockKind, int, int)>::empty());
    assert(res.bibliography.entries_view().map_values(|e: Entry| e@) =~= Seq::<EntryView>::empty());
    assert(res.warnings@.map_values(|w: LoadWarning| warning_view(w)) =~= Seq::<WarningView>::empty());
    assert(state_of(res.bibliography, abbrev@, res.warnings@, res.total_blocks, res.parsed_entries)
        =~= initial_state());
    let mut i: usize = 0;
    while i < blocks.len()
        invariant
            i <= blocks@.len(),
            bv == blocks_view(blocks@),
            bv == scan_from(chars@, 0),
            chars@ == source@,
            source@.len() < usize::MAX,
            path_string@ == path@,
            offsets@.len() == chars@.len() + 1,
            forall|k: int| 0 <= k <= chars@.len() ==> #[trigger] offsets@[k] == byte_offset(chars@, k),
            forall|k: int|
                0 <= k < blocks@.len() ==> (#[trigger] blocks@[k]).start < blocks@[k].end
                    <= chars@.len(),
            res.bibliography.wf(),
            res.bibliography.sources_view() == seq![path@],
            res.total_blocks == i,
            res.parsed_entries <= res.total_blocks,
            messages_ok(res.warnings@),
            all_from(res.bibliography, path@),
            load_fold(path@, source@, bv.take(i as int)) == Ok::<LoadState, Seq<char>>(
                state_of(res.bibliography, abbrev@, res.warnings@, res.total_blocks, res.parsed_entries),
            ),
        decreases blocks.len() - i,
    {
        let block = blocks[i];
        let ghost st = state_of(res.bibliography, abbrev@, res.warnings@, res.total_blocks, res.parsed_entries);
        assert(bv.take(i + 1).drop_last() =~= bv.take(i as int));
        assert(bv.take(i + 1).last() == (block.kind, block.start as int, block.end as int));
        let text = slice_range(&chars, block.start, block.end);
        match block.kind {
            BlockKind::StringDef => {
                push_all(&mut abbrev, &text);
                abbrev.push('\n');
                res.total_blocks = res.total_blocks + 1;
                assert(state_of(res.bibliography, abbrev@, res.warnings@, res.total_blocks, res.parsed_entries) =~= LoadState {
                    abbrev: st.abbrev + text@ + seq!['\n'],
                    total: st.total + 1,
                    ..st
                });
            },
            BlockKind::Comment => {
                res.total_blocks = res.total_blocks + 1;
                assert(state_of(res.bibliography, abbrev@, res.warnings@, res.total_blocks, res.parsed_entries) =~= LoadState {
                    total: st.total + 1,
                    ..st
                });
            },
            BlockKind::Preamble => {
                res.total_blocks = res.total_blocks + 1;
                assert(state_of(res.bibliography, abbrev@, res.warnings@, res.total_blocks, res.parsed_entries) =~= LoadState {
                    total: st.total + 1,
                    ..st
                });
            },
            BlockKind::Entry => {
                let line_start = line_number_at(&chars, block.start);
                let last = if block.end > 0 {
                    block.end - 1
                } else {
                    0
                };
                let line_end = line_number_at(&chars, last);
                let mut combined: Vec<char> = Vec::new();
                if abbrev.len() > 0 {
                    push_all(&mut combined, &abbrev);
                    combined.push('\n');
                }
                push_all(&mut combined, &text);
                assert(combined@ =~= combined_source(abbrev@, text@));
                let combined_string = string_of(&combined);
                let bounded = match parse_raw_bibtex(combined_string.as_str()) {
                    None => true,
                    Some(raw) => resolution_bounded_exec(&raw),
                };
                assert(bounded == resolution_bounded(bibtex_raw(combined@)));
                let parsed = if bounded {
                    parse_bibtex(combined_string.as_str())
                } else {
                    Err(String::from_str("abbreviations or cross-references lead back to themselves"))
                };
                assert(parse_outcome(parsed) == parser_outcome(combined@));
                let citekey = extract_citekey_from_block(&text);
                let ghost before = res;
                proof {
                    assert(res.bibliography.sources_view()[0] == path@);
                    assert(res.bibliography.sources_view().contains(path@));
                    assert(st =~= LoadState { abbrev: abbrev@, ..result_state(before) });
                    lemma_entry_step_abbrev(
                        path@,
                        result_state(before),
                        abbrev@,
                        line_start as nat,
                        line_end as nat,
                        offsets@[block.start as int] as nat,
                        offsets@[block.end as int] as nat,
                        opt_chars(citekey),
                        parse_outcome(parsed),
                    );
                }
                match add_parsed_block(
                    &mut res,
                    path,
                    line_start,
                    line_end,
                    offsets[block.start],
                    offsets[block.end],
                    citekey,
                    parsed,
                ) {
                    Err(e) => {
                        proof {
                            lemma_fold_err_sticky(path@, source@, bv, i + 1);
                            assert(bv.take(bv.len() as int) =~= bv);
                        }
                        return Err(e);
                    },
                    Ok(()) => {
                        assert(state_of(res.bibliography, abbrev@, res.warnings@, res.total_blocks, res.parsed_entries)
                            =~= LoadState { abbrev: abbrev@, ..result_state(res) });
                    },
                }
            },
        }
        i += 1;
    }
    assert(bv.take(blocks@.len() as int) =~= bv);
    Ok(res)
}

proof fn lemma_fold_entries_from_blocks(
    path: Seq<char>,
    src: Seq<char>,
    bv: Seq<(BlockKind, int, int)>,
    n: int,
)
    requires
        0 <= n <= bv.len(),
    ensures
        load_fold(path, src, bv.take(n)) matches Ok(st) ==> forall|j: int|
            0 <= j < st.entries.len() ==> exists|k: int|
                0 <= k < n && #[trigger] st.entries[j].byte_start == byte_offset(src, bv[k].1)
                    && st.entries[j].byte_end == byte_offset(src, bv[k].2) && bv[k].0 == BlockKind::Entry,
    decreases n,
{
    if n > 0 {
        assert(bv.take(n).drop_last() =~= bv.take(n - 1));
        assert(bv.take(n).last() == bv[n - 1]);
        lemma_fold_entries_from_blocks(path, src, bv, n - 1);
        match load_fold(path, src, bv.take(n - 1)) {
            Err(_) => {},
            Ok(prev) => {
                match load_fold(path, src, bv.take(n)) {
                    Err(_) => {},
                    Ok(st) => {
                        assert forall|j: int| 0 <= j < st.entries.len() implies exists|k: int|
                            0 <= k < n && #[trigger] st.entries[j].byte_start == byte_offset(src, bv[k].1)
                                && st.entries[j].byte_end == byte_offset(src, bv[k].2) && bv[k].0
                                == BlockKind::Entry by {
                            if j < prev.entries.len() {
                                assert(st.entries[j] == prev.entries[j]);
                                let k = choose|k: int|
                                    0 <= k < n - 1 && #[trigger] prev.entries[j].byte_start == byte_offset(
                                        src,
                                        bv[k].1,
                                    ) && prev.entries[j].byte_end == byte_offset(src, bv[k].2) && bv[k].0
                                        == BlockKind::Entry;
                                assert(k < n);
                            } else {
                                assert(st.entries[j].byte_start == byte_offset(src, bv[n - 1].1));
                            }
                        }
                    },
                }
            },
        }
    }
}

/// Every entry that loading a text yields records the byte range of an
/// entry block of that text: the range lies within the text's UTF-8 bytes,
/// its bytes are those of the block, and the block starts with `@`.
pub proof fn lemma_loaded_ranges_are_blocks(path: Seq<char>, src: Seq<char>)
    ensures
        load_outcome(path, src) matches Ok(st) ==> forall|j: int|
            0 <= j < st.entries.len() ==> exists|a: int, b: int|
                0 <= a < b <= src.len() && src[a] == '@' && #[trigger] st.entries[j].byte_start
                    == byte_offset(src, a) && st.entries[j].byte_end == byte_offset(src, b)
                    && st.entries[j].byte_start < st.entries[j].byte_end <= byte_len(src) && encode_utf8(
                    src,
                ).subrange(st.entries[j].byte_start as int, st.entries[j].byte_end as int)
                    == encode_utf8(src.subrange(a, b)),
{
    let bv = scan_from(src, 0);
    assert(bv.take(bv.len() as int) =~= bv);
    lemma_fold_entries_from_blocks(path, src, bv, bv.len() as int);
    crate::domain::scan::lemma_scan_blocks_in_order(src);
    match load_outcome(path, src) {
        Err(_) => {},
        Ok(st) => {
            assert forall|j: int| 0 <= j < st.entries.len() implies exists|a: int, b: int|
                0 <= a < b <= src.len() && src[a] == '@' && #[trigger] st.entries[j].byte_start
                    == byte_offset(src, a) && st.entries[j].byte_end == byte_offset(src, b)
                    && st.entries[j].byte_start < st.entries[j].byte_end <= byte_len(src) && encode_utf8(
                    src,
                ).subrange(st.entries[j].byte_start as int, st.entries[j].byte_end as int)
                    == encode_utf8(src.subrange(a, b)) by {
                let k = choose|k: int|
                    0 <= k < bv.len() && #[trigger] st.entries[j].byte_start == byte_offset(src, bv[k].1)
                        && st.entries[j].byte_end == byte_offset(src, bv[k].2) && bv[k].0 == BlockKind::Entry;
                let a = bv[k].1;
                let b = bv[k].2;
                assert(0 <= a < b <= src.len() && src[a] == '@');
                lemma_byte_offset_mono(src, a, b);
                lemma_byte_offset_slice(src, a, b);
            }
        },
    }
}

proof fn lemma_line_number_mono(s: Seq<char>, a: int, b: int)
    requires
        0 <= a <= b,
    ensures
        1 <= line_number(s, a) <= line_number(s, b),
    decreases b - a,
{
    if a < b {
        lemma_line_number_mono(s, a + 1, b);
        let na = if a < s.len() {
            a
        } else {
            s.len() as int
        };
        let nb = if a + 1 < s.len() {
            a + 1
        } else {
            s.len() as int
        };
        if na < nb {
            assert(s.subrange(0, nb).drop_last() =~= s.subrange(0, na));
        }
    }
}

/// Whether the counts and lines of a load state agree: one parsed entry per
/// entry; entries and warnings together at most the blocks read; every
/// entry and warning on lines numbered from 1, starting no later than it
/// ends.
pub open spec fn state_consistent(st: LoadState) -> bool {
    &&& st.parsed == st.entries.len()
    &&& st.parsed + st.warnings.len() <= st.total
    &&& forall|j: int| 0 <= j < st.entries.len() ==> 1 <= (#[trigger] st.entries[j]).line_start <= st.entries[j].line_end
    &&& forall|j: int| 0 <= j < st.warnings.len() ==> 1 <= (#[trigger] st.warnings[j]).line_start <= st.warnings[j].line_end
}

proof fn lemma_fold_consistent(path: Seq<char>, src: Seq<char>, bv: Seq<(BlockKind, int, int)>, n: int)
    requires
        0 <= n <= bv.len(),
        forall|k: int| 0 <= k < bv.len() ==> 0 <= (#[trigger] bv[k]).1 < bv[k].2,
    ensures
        load_fold(path, src, bv.take(n)) matches Ok(st) ==> state_consistent(st),
    decreases n,
{
    if n > 0 {
        assert(bv.take(n).drop_last() =~= bv.take(n - 1));
        assert(bv.take(n).last() == bv[n - 1]);
        lemma_fold_consistent(path, src, bv, n - 1);
        let blk = bv[n - 1];
        lemma_line_number_mono(src, blk.1, blk.2 - 1);
        match load_fold(path, src, bv.take(n - 1)) {
            Err(_) => {},
            Ok(prev) => {
                match load_fold(path, src, bv.take(n)) {
                    Err(_) => {},
                    Ok(st) => {
                        assert forall|j: int| 0 <= j < st.entries.len() implies 1 <= (#[trigger] st.entries[j]).line_start
                            <= st.entries[j].line_end by {
                            if j < prev.entries.len() {
                                assert(st.entries[j] == prev.entries[j]);
                            }
                        }
                        assert forall|j: int| 0 <= j < st.warnings.len() implies 1 <= (#[trigger] st.warnings[j]).line_start
                            <= st.warnings[j].line_end by {
                            if j < prev.warnings.len() {
                                assert(st.warnings[j] == prev.warnings[j]);
                            }
                        }
                    },
                }
            },
        }
    }
}

/// A load that succeeds counts one parsed entry per entry it yields, has
/// no more entries and warnings together than blocks, and places every
/// entry and warning on lines numbered from 1, its first line no later
/// than its last.
pub proof fn lemma_load_counts_and_lines(path: Seq<char>, src: Seq<char>)
    ensures
        load_outcome(path, src) matches Ok(st) ==> state_consistent(st),
{
    let bv = scan_from(src, 0);
    crate::domain::scan::lemma_scan_blocks_in_order(src);
    assert(bv.take(bv.len() as int) =~= bv);
    lemma_fold_consistent(path, src, bv, bv.len() as int);
}

/// Once the fold fails on a prefix it fails with the same key on every
/// longer prefix.
proof fn lemma_fold_err_sticky(
    path: Seq<char>,
    src: Seq<char>,
    bv: Seq<(BlockKind, int, int)>,
    n: int,
)
    requires
        0 <= n <= bv.len(),
        load_fold(path, src, bv.take(n)) is Err,
    ensures
        load_fold(path, src, bv.take(bv.len() as int)) == load_fold(path, src, bv.take(n)),
    decreases bv.len() - n,
{
    if n < bv.len() {
        assert(bv.take(n + 1).drop_last() =~= bv.take(n));
        lemma_fold_err_sticky(path, src, bv, n + 1);
    }
}

/// Loads the BibTeX text `source` of the file `path` into a bibliography,
/// dropping the warnings of `load_from_file_with_diagnostics`.
pub fn load_from_file(path: &str, source: &str) -> (r: Result<Bibliography, LoadError>)
    requires
        source@.len() < usize::MAX,
    ensures
        match load_outcome(path@, source@) {
            Err(k) => r matches Err(LoadError::Duplicate(e)) && e.id.0@ == k && e.existing_path@
                == path@ && e.duplicate_path@ == path@,
            Ok(st) => r matches Ok(b) && b.wf() && b.entries_view().map_values(|e: Entry| e@)
                == st.entries && b.sources_view() == seq![path@],
        },
{
    match load_from_file_with_diagnostics(path, source) {
        Ok(res) => Ok(res.bibliography),
        Err(e) => Err(e),
    }
}

/// Why loading several files failed: a file that could not be read (its
/// path and the reason), or a citation key found twice (the key, the path
/// it was first loaded from, the path of the second occurrence).
pub enum LoadFailure {
    Io(Seq<char>, Seq<char>),
    Duplicate(Seq<char>, Seq<char>, Seq<char>),
}

/// The first position at or after `j` of an entry of `b` whose key is also
/// the key of an entry of `a`.
pub open spec fn first_dup(a: Seq<EntryView>, b: Seq<EntryView>, j: int) -> Option<int>
    decreases b.len() - j,
{
    if j < 0 || j >= b.len() {
        None
    } else if view_has_id(a, b[j].id) {
        Some(j)
    } else {
        first_dup(a, b, j + 1)
    }
}

/// The entry of `es` with key `k` (meaningful when there is one).
pub open spec fn view_with_id(es: Seq<EntryView>, k: Seq<char>) -> EntryView {
    es[choose|i: int| 0 <= i < es.len() && (#[trigger] es[i]).id == k]
}

/// The outcome of loading the files `files` one after another, each given
/// by its path and its text (or the reason it could not be read): the
/// entries and the source paths, or the first failure.
pub open spec fn files_outcome(files: Seq<(Seq<char>, Result<Seq<char>, Seq<char>>)>) -> Result<
    (Seq<EntryView>, Seq<Seq<char>>),
    LoadFailure,
>
    decreases files.len(),
{
    if files.len() == 0 {
        Ok((Seq::empty(), Seq::empty()))
    } else {
        match files_outcome(files.drop_last()) {
            Err(f) => Err(f),
            Ok(acc) => {
                let path = files.last().0;
                match files.last().1 {
                    Err(m) => Err(LoadFailure::Io(path, m)),
                    Ok(src) => match load_outcome(path, src) {
                        Err(k) => Err(LoadFailure::Duplicate(k, path, path)),
                        Ok(st) => match first_dup(acc.0, st.entries, 0) {
                            Some(j) => Err(
                                LoadFailure::Duplicate(
                                    st.entries[j].id,
                                    view_with_id(acc.0, st.entries[j].id).file_path,
                                    st.entries[j].file_path,
                                ),
                            ),
                            None => Ok((acc.0 + st.entries, push_source_spec(acc.1, path))),
                        },
                    },
                }
            },
        }
    }
}

/// `first_shared` on entries agrees with `first_dup` on their views.
proof fn lemma_first_shared_view(a: Seq<Entry>, b: Seq<Entry>, j: int)
    requires
        0 <= j,
    ensures
        first_shared(a, b, j) == first_dup(
            a.map_values(|e: Entry| e@),
            b.map_values(|e: Entry| e@),
            j,
        ),
    decreases b.len() - j,
{
    let av = a.map_values(|e: Entry| e@);
    let bv = b.map_values(|e: Entry| e@);
    if j < b.len() {
        let k = b[j].id.0@;
        assert(bv[j].id == k);
        if has_id(a, k) {
            let i = choose|i: int| 0 <= i < a.len() && (#[trigger] a[i]).id.0@ == k;
            assert(av[i].id == k);
        }
        if view_has_id(av, k) {
            let i = choose|i: int| 0 <= i < av.len() && (#[trigger] av[i]).id == k;
            assert(a[i].id.0@ == k);
        }
        lemma_first_shared_view(a, b, j + 1);
    }
}

/// A position found by `first_shared` holds an entry whose key is in `a`.
proof fn lemma_first_shared_some(a: Seq<Entry>, b: Seq<Entry>, j: int)
    requires
        0 <= j,
        first_shared(a, b, j) is Some,
    ensures
        j <= first_shared(a, b, j)->Some_0 < b.len(),
        has_id(a, b[first_shared(a, b, j)->Some_0].id.0@),
    decreases b.len() - j,
{
    if j < b.len() && !has_id(a, b[j].id.0@) {
        lemma_first_shared_some(a, b, j + 1);
    }
}

/// In a bibliography with unique keys, the entry found by key agrees with
/// the view found by key.
proof fn lemma_view_with_id(b: Bibliography, k: Seq<char>)
    requires
        b.wf(),
        b.contains_id(k),
    ensures
        view_with_id(b.entries_view().map_values(|e: Entry| e@), k) == b.entry_with_id(k)@,
{
    let es = b.entries_view();
    let ev = es.map_values(|e: Entry| e@);
    let i = super::id_index(es, k);
    assert(ev[i].id == k);
    let i2 = choose|i: int| 0 <= i < ev.len() && (#[trigger] ev[i]).id == k;
    assert(es[i2].id.0@ == k);
    assert(i == i2);
}

/// The abstract form of the files handed to `load_from_files`.
pub open spec fn files_view(files: Seq<(String, Result<String, String>)>) -> Seq<
    (Seq<char>, Result<Seq<char>, Seq<char>>),
> {
    files.map_values(
        |f: (String, Result<String, String>)|
            (
                f.0@,
                match f.1 {
                    Ok(s) => Ok(s@),
                    Err(m) => Err(m@),
                },
            ),
    )
}

/// Loads several files, in order, into one bibliography. Each file is given
/// by its path and its text, or by the reason it could not be read, which
/// fails the load. A citation key found twice, in one file or across files,
/// fails the load too.
pub fn load_from_files(files: &[(String, Result<String, String>)]) -> (r: Result<
    Bibliography,
    LoadError,
>)
    requires
        forall|i: int|
            0 <= i < files@.len() ==> ((#[trigger] files@[i]).1 matches Ok(s) ==> s@.len()
                < usize::MAX),
    ensures
        match files_outcome(files_view(files@)) {
            Err(LoadFailure::Io(p, m)) => r matches Err(LoadError::Io { path, message })
                && path@ == p && message@ == m,
            Err(LoadFailure::Duplicate(k, p1, p2)) => r matches Err(LoadError::Duplicate(e))
                && e.id.0@ == k && e.existing_path@ == p1 && e.duplicate_path@ == p2,
            Ok(acc) => r matches Ok(b) && b.wf() && b.entries_view().map_values(|e: Entry| e@)
                == acc.0 && b.sources_view() == acc.1,
        },
{
    let ghost fv = files_view(files@);
    let mut bib = Bibliography::new();
    assert(fv.take(0) =~= Seq::<(Seq<char>, Result<Seq<char>, Seq<char>>)>::empty());
    assert(bib.entries_view().map_values(|e: Entry| e@) =~= Seq::<EntryView>::empty());
    let mut i: usize = 0;
    while i < files.len()
        invariant
            i <= files@.len(),
            fv == files_view(files@),
            forall|j: int|
                0 <= j < files@.len() ==> ((#[trigger] files@[j]).1 matches Ok(s) ==> s@.len()
                    < usize::MAX),
            bib.wf(),
            files_outcome(fv.take(i as int)) == Ok::<
                (Seq<EntryView>, Seq<Seq<char>>),
                LoadFailure,
            >((bib.entries_view().map_values(|e: Entry| e@), bib.sources_view())),
        decreases files.len() - i,
    {
        let ghost acc = (bib.entries_view().map_values(|e: Entry| e@), bib.sources_view());
        assert(fv.take(i + 1).drop_last() =~= fv.take(i as int));
        assert(fv.take(i + 1).last() == fv[i as int]);
        let path = &files[i].0;
        match &files[i].1 {
            Err(message) => {
                proof {
                    lemma_files_err_sticky(fv, i + 1);
                    assert(fv.take(fv.len() as int) =~= fv);
                }
                return Err(LoadError::Io { path: path.clone(), message: message.clone() });
            },
            Ok(source) => {
                match load_from_file(path.as_str(), source.as_str()) {
                    Err(e) => {
                        proof {
                            lemma_files_err_sticky(fv, i + 1);
                            assert(fv.take(fv.len() as int) =~= fv);
                        }
                        return Err(e);
                    },
                    Ok(loaded) => {
                        let ghost st = load_outcome(path@, source@)->Ok_0;
                        let ghost before = bib;
                        let ghost lv = loaded.entries_view();
                        let ghost ls = loaded.sources_view();
                        proof {
                            lemma_first_shared_view(bib.entries_view(), loaded.entries_view(), 0);
                        }
                        match bib.merge(loaded) {
                            Err(MergeError::Duplicate(e)) => {
                                proof {
                                    lemma_first_shared_some(before.entries_view(), loaded.entries_view(), 0);
                                    lemma_view_with_id(before, e.id.0@);
                                    lemma_files_err_sticky(fv, i + 1);
                                    assert(fv.take(fv.len() as int) =~= fv);
                                }
                                return Err(LoadError::Duplicate(e));
                            },
                            Ok(()) => {
                                proof {
                                    assert(seq![path@].drop_last() =~= Seq::<Seq<char>>::empty());
                                    assert(ls == seq![path@]);
                                    assert(ls.drop_last() =~= Seq::<Seq<char>>::empty());
                                    assert(push_sources_spec(acc.1, ls.drop_last()) == acc.1);
                                    assert(ls.last() == path@);
                                    assert(push_sources_spec(acc.1, ls) == push_source_spec(acc.1, path@));
                                    assert(first_dup(acc.0, st.entries, 0) is None);
                                    assert(bib.entries_view() == before.entries_view() + lv);
                                    assert(bib.entries_view().map_values(|e: Entry| e@)
                                        =~= acc.0 + st.entries);
                                }
                            },
                        }
                    },
                }
            },
        }
        i += 1;
    }
    assert(fv.take(fv.len() as int) =~= fv);
    Ok(bib)
}

/// Once loading fails on some files it fails the same way on every longer
/// list.
/// The entries that loading the file `f` (its path and its text, or the
/// reason it could not be read) yields; none when it does not load.
pub open spec fn file_entries(f: (Seq<char>, Result<Seq<char>, Seq<char>>)) -> Seq<EntryView> {
    match f.1 {
        Ok(src) => match load_outcome(f.0, src) {
            Ok(st) => st.entries,
            Err(_) => Seq::empty(),
        },
        Err(_) => Seq::empty(),
    }
}

/// Whether the file `f` was read and loads on its own.
pub open spec fn file_loads(f: (Seq<char>, Result<Seq<char>, Seq<char>>)) -> bool {
    f.1 matches Ok(src) && load_outcome(f.0, src) is Ok
}

/// The entries of the files, file after file.
pub open spec fn entries_of_files(fs: Seq<(Seq<char>, Result<Seq<char>, Seq<char>>)>) -> Seq<EntryView>
    decreases fs.len(),
{
    if fs.len() == 0 {
        Seq::empty()
    } else {
        entries_of_files(fs.drop_last()) + file_entries(fs.last())
    }
}

/// Whether no key of `a` is a key of `b`.
pub open spec fn keys_apart(a: Seq<EntryView>, b: Seq<EntryView>) -> bool {
    forall|x: int, y: int| 0 <= x < a.len() && 0 <= y < b.len() ==> #[trigger] a[x].id != #[trigger] b[y].id
}

proof fn lemma_first_dup_none(a: Seq<EntryView>, b: Seq<EntryView>, j: int)
    requires
        0 <= j,
    ensures
        first_dup(a, b, j) is None <==> forall|k: int| j <= k < b.len() ==> !view_has_id(a, #[trigger] b[k].id),
        first_dup(a, b, j) matches Some(k) ==> j <= k < b.len() && view_has_id(a, b[k].id),
    decreases b.len() - j,
{
    if j < b.len() && !view_has_id(a, b[j].id) {
        lemma_first_dup_none(a, b, j + 1);
        if first_dup(a, b, j) is None {
            assert forall|k: int| j <= k < b.len() implies !view_has_id(a, #[trigger] b[k].id) by {
                if k > j {
                }
            }
        }
    }
}

proof fn lemma_entries_of_files_has(fs: Seq<(Seq<char>, Result<Seq<char>, Seq<char>>)>, k: Seq<char>)
    ensures
        view_has_id(entries_of_files(fs), k) <==> exists|i: int, x: int|
            0 <= i < fs.len() && 0 <= x < file_entries(fs[i]).len() && #[trigger] file_entries(fs[i])[x].id == k,
    decreases fs.len(),
{
    if fs.len() > 0 {
        let init = fs.drop_last();
        lemma_entries_of_files_has(init, k);
        let a = entries_of_files(init);
        let b = file_entries(fs.last());
        let all = entries_of_files(fs);
        assert(all == a + b);
        if view_has_id(all, k) {
            let p = choose|p: int| 0 <= p < all.len() && (#[trigger] all[p]).id == k;
            if p < a.len() {
                assert(a[p] == all[p]);
                assert(view_has_id(a, k));
                let (i, x) = choose|i: int, x: int|
                    0 <= i < init.len() && 0 <= x < file_entries(init[i]).len() && #[trigger] file_entries(init[i])[x].id == k;
                assert(fs[i] == init[i]);
                assert(file_entries(fs[i])[x].id == k);
            } else {
                assert(b[p - a.len()] == all[p]);
                assert(fs[fs.len() - 1] == fs.last());
                assert(file_entries(fs[fs.len() - 1])[p - a.len()].id == k);
            }
        }
        if exists|i: int, x: int|
            0 <= i < fs.len() && 0 <= x < file_entries(fs[i]).len() && #[trigger] file_entries(fs[i])[x].id == k {
            let (i, x) = choose|i: int, x: int|
                0 <= i < fs.len() && 0 <= x < file_entries(fs[i]).len() && #[trigger] file_entries(fs[i])[x].id == k;
            if i < fs.len() - 1 {
                assert(fs[i] == init[i]);
                assert(file_entries(init[i])[x].id == k);
                assert(view_has_id(a, k));
                let p = choose|p: int| 0 <= p < a.len() && (#[trigger] a[p]).id == k;
                assert(all[p] == a[p]);
            } else {
                assert(all[a.len() + x] == b[x]);
            }
            assert(view_has_id(all, k));
        }
    }
}

/// Loading several files succeeds exactly when every file was read and
/// loads on its own and no two files share a citation key; the entries are
/// then those of the files, file after file.
#[verifier::spinoff_prover]
#[verifier::rlimit(40)]
pub proof fn lemma_files_load_iff_disjoint(fs: Seq<(Seq<char>, Result<Seq<char>, Seq<char>>)>)
    ensures
        files_outcome(fs) is Ok <==> (forall|i: int| 0 <= i < fs.len() ==> file_loads(#[trigger] fs[i]))
            && (forall|i: int, j: int|
            0 <= i < j < fs.len() ==> keys_apart(#[trigger] file_entries(fs[i]), #[trigger] file_entries(fs[j]))),
        files_outcome(fs) matches Ok(acc) ==> acc.0 == entries_of_files(fs),
    decreases fs.len(),
{
    if fs.len() > 0 {
        let init = fs.drop_last();
        let n = fs.len() - 1;
        lemma_files_load_iff_disjoint(init);
        assert forall|i: int| 0 <= i < n implies #[trigger] fs[i] == init[i] by {}
        assert(fs[n] == fs.last());
        let loads = (forall|i: int| 0 <= i < fs.len() ==> file_loads(#[trigger] fs[i]));
        let apart = (forall|i: int, j: int|
            0 <= i < j < fs.len() ==> keys_apart(#[trigger] file_entries(fs[i]), #[trigger] file_entries(fs[j])));
        match files_outcome(init) {
            Err(_) => {
                if loads && apart {
                    assert forall|i: int| 0 <= i < init.len() implies file_loads(#[trigger] init[i]) by {
                        assert(file_loads(fs[i]));
                    }
                    assert forall|i: int, j: int| 0 <= i < j < init.len() implies keys_apart(
                        #[trigger] file_entries(init[i]),
                        #[trigger] file_entries(init[j]),
                    ) by {
                        assert(keys_apart(file_entries(fs[i]), file_entries(fs[j])));
                    }
                }
            },
            Ok(acc) => {
                let path = fs.last().0;
                match fs.last().1 {
                    Err(_) => {
                        assert(!file_loads(fs[n]));
                    },
                    Ok(src) => match load_outcome(path, src) {
                        Err(_) => {
                            assert(!file_loads(fs[n]));
                        },
                        Ok(st) => {
                            lemma_first_dup_none(acc.0, st.entries, 0);
                            lemma_entries_of_files_has(init, st.entries[0].id);
                            assert(file_entries(fs[n]) == st.entries);
                            match first_dup(acc.0, st.entries, 0) {
                                Some(y) => {
                                    let k = st.entries[y].id;
                                    lemma_entries_of_files_has(init, k);
                                    let (i, x) = choose|i: int, x: int|
                                        0 <= i < init.len() && 0 <= x < file_entries(init[i]).len()
                                            && #[trigger] file_entries(init[i])[x].id == k;
                                    assert(fs[i] == init[i]);
                                    assert(file_entries(fs[i])[x].id == file_entries(fs[n])[y].id);
                                    assert(!keys_apart(file_entries(fs[i]), file_entries(fs[n])));
                                },
                                None => {
                                    assert forall|i: int| 0 <= i < fs.len() implies file_loads(#[trigger] fs[i]) by {
                                        if i < n {
                                            assert(file_loads(init[i]));
                                        }
                                    }
                                    assert forall|i: int, j: int| 0 <= i < j < fs.len() implies keys_apart(
                                        #[trigger] file_entries(fs[i]),
                                        #[trigger] file_entries(fs[j]),
                                    ) by {
                                        if j < n {
                                            assert(keys_apart(file_entries(init[i]), file_entries(init[j])));
                                        } else {
                                            assert forall|x: int, y: int|
                                                0 <= x < file_entries(fs[i]).len() && 0 <= y < file_entries(fs[j]).len()
                                                implies #[trigger] file_entries(fs[i])[x].id != #[trigger] file_entries(fs[j])[y].id by {
                                                if file_entries(fs[i])[x].id == file_entries(fs[j])[y].id {
                                                    let k = st.entries[y].id;
                                                    lemma_entries_of_files_has(init, k);
                                                    assert(file_entries(init[i])[x].id == k);
                                                    assert(!view_has_id(acc.0, st.entries[y].id));
                                                }
                                            }
                                        }
                                    }
                                    assert(entries_of_files(fs) == acc.0 + st.entries);
                                },
                            }
                        },
                    },
                }
            },
        }
    }
}

proof fn lemma_files_err_sticky(fv: Seq<(Seq<char>, Result<Seq<char>, Seq<char>>)>, n: int)
    requires
        0 <= n <= fv.len(),
        files_outcome(fv.take(n)) is Err,
    ensures
        files_outcome(fv.take(fv.len() as int)) == files_outcome(fv.take(n)),
    decreases fv.len() - n,
{
    if n < fv.len() {
        assert(fv.take(n + 1).drop_last() =~= fv.take(n));
        lemma_files_err_sticky(fv, n + 1);
    }
}

} // verus!
