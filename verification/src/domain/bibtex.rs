//! The BibTeX parser behind entry loading: the `biblatex` crate.
use vstd::prelude::*;

use biblatex::ChunksExt;

use super::fields::pairs_view;

verus! {

/// One entry as the parser returns it: citation key, entry type, and the
/// fields with their values formatted verbatim, in the parser's order.
pub struct RawEntry {
    pub key: String,
    pub entry_type: String,
    pub fields: Vec<(String, String)>,
}

/// The abstract form of a parsed entry.
pub open spec fn raw_view(e: RawEntry) -> (Seq<char>, Seq<char>, Seq<(Seq<char>, Seq<char>)>) {
    (e.key@, e.entry_type@, pairs_view(e.fields@))
}

/// The abstract form of a list of parsed entries.
pub open spec fn raws_view(v: Seq<RawEntry>) -> Seq<(Seq<char>, Seq<char>, Seq<(Seq<char>, Seq<char>)>)> {
    v.map_values(|e: RawEntry| raw_view(e))
}

/// What `biblatex` reads from the source text `src`: the entries (key,
/// type, verbatim fields), or the `Display` text of the error it reports
/// when it rejects the text.
pub uninterp spec fn bibtex_parse(src: Seq<char>) -> Result<Seq<(Seq<char>, Seq<char>, Seq<(Seq<char>, Seq<char>)>)>, Seq<char>>;

/// A piece of a field value as written: literal text, or the name of an
/// abbreviation (`@string`) to be put in its place.
pub enum RawPiece {
    Text(String),
    Name(String),
}

/// A field as written: its name and the pieces of its value.
pub struct RawField {
    pub name: String,
    pub pieces: Vec<RawPiece>,
}

/// A source text as written, before abbreviations are put in place: the
/// abbreviation definitions, and each entry's key and fields.
pub struct RawSource {
    pub abbreviations: Vec<RawField>,
    pub entries: Vec<(String, Vec<RawField>)>,
}

/// The abstract form of a piece.
pub enum PieceView {
    Text(Seq<char>),
    Name(Seq<char>),
}

pub open spec fn piece_view(p: RawPiece) -> PieceView {
    match p {
        RawPiece::Text(s) => PieceView::Text(s@),
        RawPiece::Name(s) => PieceView::Name(s@),
    }
}

/// The abstract form of a list of pieces.
pub open spec fn pieces_view(ps: Seq<RawPiece>) -> Seq<PieceView> {
    ps.map_values(|p: RawPiece| piece_view(p))
}

/// The abstract form of a field: its name and pieces.
pub open spec fn raw_field_view(f: RawField) -> (Seq<char>, Seq<PieceView>) {
    (f.name@, pieces_view(f.pieces@))
}

/// The abstract form of a list of fields.
pub open spec fn raw_fields_view(v: Seq<RawField>) -> Seq<(Seq<char>, Seq<PieceView>)> {
    v.map_values(|f: RawField| raw_field_view(f))
}

/// The abstract form of a source as written.
pub struct RawSourceView {
    pub abbreviations: Seq<(Seq<char>, Seq<PieceView>)>,
    pub entries: Seq<(Seq<char>, Seq<(Seq<char>, Seq<PieceView>)>)>,
}

pub open spec fn raw_source_view(r: RawSource) -> RawSourceView {
    RawSourceView {
        abbreviations: raw_fields_view(r.abbreviations@),
        entries: r.entries@.map_values(|e: (String, Vec<RawField>)| (e.0@, raw_fields_view(e.1@))),
    }
}

/// What `biblatex` reads from `src` before putting abbreviations in place:
/// the abbreviation definitions and the entries' keys and fields as
/// written, or nothing when it rejects the text.
pub uninterp spec fn bibtex_raw(src: Seq<char>) -> Option<RawSourceView>;

/// Reads `src` with `biblatex::RawBibliography::parse` (which scans the
/// text once and resolves nothing) and hands back its abbreviations and its
/// entries' keys and fields, each value piece as text (`RawChunk::Normal`)
/// or as an abbreviation name (`RawChunk::Abbreviation`). The contract
/// claims only that the outcome is a function of `src`, named `bibtex_raw`.
#[verifier::external_body]
pub(crate) fn parse_raw_bibtex(src: &str) -> (r: Option<RawSource>)
    ensures
        r matches Some(x) ==> bibtex_raw(src@) == Some(raw_source_view(x)),
        r is None ==> bibtex_raw(src@) is None,
{
    let field = |p: &biblatex::Pair| RawField {
        name: p.key.v.to_string(),
        pieces: p.value.v.iter().map(|c| match c.v {
            biblatex::RawChunk::Normal(s) => RawPiece::Text(s.to_string()),
            biblatex::RawChunk::Abbreviation(s) => RawPiece::Name(s.to_string()),
        }).collect(),
    };
    biblatex::RawBibliography::parse(src).ok().map(|raw| RawSource {
        abbreviations: raw.abbreviations.iter().map(field).collect(),
        entries: raw.entries.iter().map(|e| (e.v.key.v.to_string(), e.v.fields.iter().map(field).collect())).collect(),
    })
}

/// Parses `src` with `biblatex::Bibliography::parse` and hands back each
/// entry's key, type (its `Display` text) and fields (each value through
/// `ChunksExt::format_verbatim`), or the `Display` text of its error. The
/// contract claims only that the outcome is a function of `src`, named
/// `bibtex_parse`. The parser puts abbreviations in place recursively and
/// follows `crossref` and `xdata` links recursively, without checking for
/// cycles: on a text whose abbreviations or links could lead back to
/// themselves it never returns, so such texts are left out
/// (`resolution_bounded`). It also reads the arguments of LaTeX commands
/// recursively, one level of the call stack per level of nesting; how deep
/// a nesting the stack holds depends on the machine, and is left unsaid.
#[verifier::external_body]
pub(crate) fn parse_bibtex(src: &str) -> (r: Result<Vec<RawEntry>, String>)
    requires
        crate::domain::cycles::resolution_bounded(bibtex_raw(src@)),
    ensures
        match bibtex_parse(src@) {
            Ok(es) => r matches Ok(v) && raws_view(v@) == es,
            Err(m) => r matches Err(x) && x@ == m,
        },
{
    biblatex::Bibliography::parse(src).map(|bib| {
        bib.into_vec().into_iter().map(|e| RawEntry {
            key: e.key.clone(),
            entry_type: e.entry_type.to_string(),
            fields: e.fields.iter().map(|(k, v)| (k.clone(), v.format_verbatim())).collect(),
        }).collect()
    }).map_err(|e| e.to_string())
}

} // verus!
