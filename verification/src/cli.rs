//! The command line: its commands and options, and the text that the
//! listing, showing and diagnosing commands print.
use vstd::prelude::*;

use crate::domain::sort::derefs;
use crate::domain::load::{LoadResult, LoadWarning};
use crate::domain::{
    first_shared, id_index, push_sources_spec, title_key, Bibliography, Entry, MergeError,
};
use crate::services::notes::names::{join_strings, join_with, replace_all, replace_chars, texts};
use crate::sorting::{lemma_stable_sort_map, sort_by_le, stable_sort};
use crate::text::{chars_eq, chars_of, decimal, decimal_text, lex_order, lex_order_exec, string_of};

verus! {

/// The parsed command line.
pub struct Cli {
    pub command: Option<Commands>,
    /// The configuration file to read instead of the default one.
    pub config: Option<String>,
    /// Run the terminal interface (also the default without a command).
    pub tui: bool,
}

/// The subcommands.
#[allow(inconsistent_fields)]
pub enum Commands {
    /// List all entries, optionally filtered by a query and sorted.
    List { format: OutputFormat, query: Option<String>, sort: Option<String> },
    /// Show one entry.
    Show { citekey: String, format: OutputFormat },
    /// Edit an entry in the external editor.
    Edit { citekey: String },
    /// Search the entries.
    Search { query: String, format: OutputFormat },
    /// Create, and unless `no_open` open, the note of an entry.
    Note { citekey: String, no_open: bool },
    /// Copy a citation key to the clipboard.
    Copy { citekey: String },
    /// Open the PDF of an entry.
    Pdf { citekey: String },
    /// Write the default configuration.
    Init { output: Option<String> },
    /// Diagnose a BibTeX file.
    Doctor { file: Option<String> },
}

/// How entries are printed.
#[derive(Clone, Copy, Debug, PartialEq, Eq, Structural)]
pub enum OutputFormat {
    Table,
    Json,
    Yaml,
    Plain,
}

impl Default for OutputFormat {
    fn default() -> (r: OutputFormat)
        ensures
            r == OutputFormat::Table,
    {
        OutputFormat::Table
    }
}

/// The name of an output format as written on the command line.
pub open spec fn format_name(f: OutputFormat) -> Seq<char> {
    match f {
        OutputFormat::Table => "table"@,
        OutputFormat::Json => "json"@,
        OutputFormat::Yaml => "yaml"@,
        OutputFormat::Plain => "plain"@,
    }
}

impl OutputFormat {
    /// The format's name: `table`, `json`, `yaml` or `plain`.
    pub fn as_str(&self) -> (r: &'static str)
        ensures
            r@ == format_name(*self),
    {
        match self {
            OutputFormat::Table => "table",
            OutputFormat::Json => "json",
            OutputFormat::Yaml => "yaml",
            OutputFormat::Plain => "plain",
        }
    }
}

/// The keys by which `list --sort` orders entries.
#[derive(Clone, Copy, Debug, PartialEq, Eq, Structural)]
pub enum ListSort {
    Year,
    Author,
    Title,
}

/// The sort key named by `name`; other names leave the order as it is.
pub open spec fn list_sort_of(name: Seq<char>) -> Option<ListSort> {
    if name == "year"@ {
        Some(ListSort::Year)
    } else if name == "author"@ {
        Some(ListSort::Author)
    } else if name == "title"@ {
        Some(ListSort::Title)
    } else {
        None
    }
}

/// Optional numbers ordered with the absent one first.
pub open spec fn opt_nat_le(a: Option<nat>, b: Option<nat>) -> bool {
    match (a, b) {
        (None, _) => true,
        (Some(_), None) => false,
        (Some(x), Some(y)) => x <= y,
    }
}

/// Optional texts ordered with the absent one first.
pub open spec fn opt_text_le(a: Option<Seq<char>>, b: Option<Seq<char>>) -> bool {
    match (a, b) {
        (None, _) => true,
        (Some(_), None) => false,
        (Some(x), Some(y)) => lex_order(x, y) <= 0,
    }
}

/// An entry's authors joined with `sep`.
pub open spec fn authors_joined(e: Entry, sep: Seq<char>) -> Seq<char> {
    join_with(e.author_names(), sep)
}

/// "Comes no later than" for a listing sorted by `kind`: by year, by the
/// authors joined with `", "`, or by title.
pub open spec fn list_le(kind: ListSort) -> spec_fn(Entry, Entry) -> bool {
    |a: Entry, b: Entry|
        match kind {
            ListSort::Year => opt_nat_le(a.year_value(), b.year_value()),
            ListSort::Author => lex_order(authors_joined(a, ", "@), authors_joined(b, ", "@)) <= 0,
            ListSort::Title => opt_text_le(a.field(title_key()), b.field(title_key())),
        }
}

/// `list_le` on references.
pub open spec fn list_ref_le<'a>(kind: ListSort) -> spec_fn(&'a Entry, &'a Entry) -> bool {
    |a: &'a Entry, b: &'a Entry| list_le(kind)(*a, *b)
}

/// The authors of `e` joined with `sep`.
fn joined_authors(e: &Entry, sep: &str) -> (r: String)
    ensures
        r@ == authors_joined(*e, sep@),
{
    let a = e.authors();
    assert(texts(a@) =~= e.author_names());
    join_strings(&a, sep)
}

/// Whether `a` comes no later than `b` in a listing sorted by `kind`.
fn list_leq(a: &&Entry, b: &&Entry, kind: ListSort) -> (o: bool)
    ensures
        o == list_le(kind)(**a, **b),
{
    match kind {
        ListSort::Year => match (a.year(), b.year()) {
            (None, _) => true,
            (Some(_), None) => false,
            (Some(x), Some(y)) => x <= y,
        },
        ListSort::Author => {
            let x = chars_of(joined_authors(*a, ", ").as_str());
            let y = chars_of(joined_authors(*b, ", ").as_str());
            lex_order_exec(&x, &y) <= 0
        },
        ListSort::Title => match (a.title(), b.title()) {
            (None, _) => true,
            (Some(_), None) => false,
            (Some(x), Some(y)) => lex_order_exec(&chars_of(x), &chars_of(y)) <= 0,
        },
    }
}

/// The sort key that `list --sort` names, if it names one.
pub fn list_sort_from(name: &str) -> (r: Option<ListSort>)
    ensures
        r == list_sort_of(name@),
{
    let n = chars_of(name);
    if chars_eq(&n, &chars_of("year")) {
        Some(ListSort::Year)
    } else if chars_eq(&n, &chars_of("author")) {
        Some(ListSort::Author)
    } else if chars_eq(&n, &chars_of("title")) {
        Some(ListSort::Title)
    } else {
        None
    }
}

/// Orders a listing as `list --sort NAME` does: stably by year, by the
/// authors joined with `", "` or by title, a missing year or title first;
/// another name keeps the order.
pub fn sort_listing<'a>(entries: &mut Vec<&'a Entry>, sort: &str)
    ensures
        list_sort_of(sort@) matches Some(k) ==> derefs(final(entries)@) == stable_sort(
            derefs(old(entries)@),
            list_le(k),
        ),
        list_sort_of(sort@) is None ==> final(entries)@ == old(entries)@,
{
    match list_sort_from(sort) {
        None => {},
        Some(kind) => {
            let mut taken: Vec<&'a Entry> = Vec::new();
            std::mem::swap(&mut taken, entries);
            let ghost le_r = list_ref_le(kind);
            let leq = |a: &&Entry, b: &&Entry| -> (o: bool)
                ensures
                    o == list_le(kind)(**a, **b),
                { list_leq(a, b, kind) };
            proof {
                lemma_stable_sort_map(taken@, |e: &Entry| *e, le_r, list_le(kind));
            }
            let sorted = sort_by_le(taken, leq, Ghost(le_r));
            *entries = sorted;
        },
    }
}

/// `"N/A"`, written where a value is missing.
pub open spec fn not_available() -> Seq<char> {
    "N/A"@
}

/// The title of `e`, or `missing`.
pub open spec fn title_or(e: Entry, missing: Seq<char>) -> Seq<char> {
    match e.field(title_key()) {
        Some(t) => t,
        None => missing,
    }
}

/// The year of `e` in decimal, or `missing`.
pub open spec fn year_or(e: Entry, missing: Seq<char>) -> Seq<char> {
    match e.year_value() {
        Some(y) => decimal(y),
        None => missing,
    }
}

/// The first author of `e`, or `missing`.
pub open spec fn first_author_or(e: Entry, missing: Seq<char>) -> Seq<char> {
    if e.author_names().len() > 0 {
        e.author_names()[0]
    } else {
        missing
    }
}

/// An entry in the display format: `{citekey}`, `{author}` (the first
/// author), `{title}` and `{year}` are replaced, one after the other.
pub open spec fn display_line(e: Entry, fmt: Seq<char>) -> Seq<char> {
    let a = replace_all(fmt, "{citekey}"@, e.id.0@);
    let b = replace_all(a, "{author}"@, first_author_or(e, not_available()));
    let c = replace_all(b, "{title}"@, title_or(e, not_available()));
    replace_all(c, "{year}"@, year_or(e, Seq::empty()))
}

/// The title of `e`, or `missing`.
pub fn title_text(e: &Entry, missing: &str) -> (r: String)
    ensures
        r@ == title_or(*e, missing@),
{
    match e.title() {
        Some(t) => t.to_owned(),
        None => missing.to_owned(),
    }
}

/// The year of `e` in decimal, or `missing`.
pub fn year_text(e: &Entry, missing: &str) -> (r: String)
    ensures
        r@ == year_or(*e, missing@),
{
    match e.year() {
        Some(y) => decimal_text(y as usize),
        None => missing.to_owned(),
    }
}

/// Replaces every `pat` in `s` by `rep`.
fn replace_text(s: &str, pat: &str, rep: &str) -> (r: String)
    requires
        pat@.len() > 0,
    ensures
        r@ == replace_all(s@, pat@, rep@),
{
    string_of(&replace_chars(&chars_of(s), &chars_of(pat), &chars_of(rep)))
}

/// An entry in the display format (`display_line`).
pub fn format_entry(entry: &Entry, format: &str) -> (r: String)
    ensures
        r@ == display_line(*entry, format@),
{
    proof {
        reveal_strlit("{citekey}");
        reveal_strlit("{author}");
        reveal_strlit("{title}");
        reveal_strlit("{year}");
        reveal_strlit("");
        assert(""@ =~= Seq::<char>::empty());
    }
    let authors = entry.authors();
    let first = if authors.len() > 0 {
        authors[0].clone()
    } else {
        String::from_str("N/A")
    };
    assert(first@ == first_author_or(*entry, not_available()));
    let a = replace_text(format, "{citekey}", entry.id.0.as_str());
    let b = replace_text(a.as_str(), "{author}", first.as_str());
    let c = replace_text(b.as_str(), "{title}", title_text(entry, "N/A").as_str());
    replace_text(c.as_str(), "{year}", year_text(entry, "").as_str())
}


/// `n` spaces.
pub open spec fn spaces(n: nat) -> Seq<char> {
    Seq::new(n, |i: int| ' ')
}

/// `s` padded with spaces on the right to at least `w` characters, as
/// `{:<w}` formats it.
pub open spec fn pad_right(s: Seq<char>, w: nat) -> Seq<char> {
    if s.len() >= w {
        s
    } else {
        s + spaces((w - s.len()) as nat)
    }
}

/// `s`, or its first `keep` characters and `"..."` when it is longer than
/// `max`.
pub open spec fn cell(s: Seq<char>, max: nat, keep: nat) -> Seq<char> {
    if s.len() > max {
        s.take(keep as int) + "..."@
    } else {
        s
    }
}

/// `n` dashes.
pub open spec fn dashes(n: nat) -> Seq<char> {
    Seq::new(n, |i: int| '-')
}

/// The head of the table listing: the column names and a rule.
pub open spec fn table_header() -> Seq<Seq<char>> {
    seq![
        pad_right("Citekey"@, 20) + " "@ + pad_right("Title"@, 40) + " "@ + pad_right("Authors"@, 30),
        dashes(90),
    ]
}

/// One row of the table listing: the citation key, the title cut to 37
/// characters and the authors cut to 27, in columns of 20, 40 and 30.
pub open spec fn table_row(e: Entry) -> Seq<char> {
    pad_right(e.id.0@, 20) + " "@ + pad_right(cell(title_or(e, not_available()), 37, 34), 40)
        + " "@ + pad_right(cell(authors_joined(e, "; "@), 27, 24), 30)
}

/// The lines printed for one entry of a listing.
pub open spec fn entry_block(e: Entry, format: OutputFormat, fmt: Seq<char>) -> Seq<Seq<char>> {
    match format {
        OutputFormat::Json => seq![
            "{"@,
            "  \"citekey\": \""@ + e.id.0@ + "\","@,
            "  \"type\": \""@ + e.entry_type@ + "\","@,
            "  \"title\": \""@ + title_or(e, not_available()) + "\","@,
            "  \"authors\": \""@ + authors_joined(e, "; "@) + "\","@,
            "  \"year\": "@ + year_or(e, "null"@),
            "}"@,
        ],
        OutputFormat::Yaml => seq![
            "- citekey: "@ + e.id.0@,
            "  type: "@ + e.entry_type@,
            "  title: "@ + title_or(e, not_available()),
            "  authors: "@ + authors_joined(e, "; "@),
            "  year: "@ + year_or(e, "null"@),
        ],
        OutputFormat::Plain => seq![display_line(e, fmt)],
        OutputFormat::Table => seq![table_row(e)],
    }
}

/// The lines printed for the entries `es`, one block after the other.
pub open spec fn listing_body(es: Seq<Entry>, format: OutputFormat, fmt: Seq<char>) -> Seq<
    Seq<char>,
>
    decreases es.len(),
{
    if es.len() == 0 {
        Seq::empty()
    } else {
        listing_body(es.drop_last(), format, fmt) + entry_block(es.last(), format, fmt)
    }
}

/// Everything a listing prints: the table has a head and ends with a blank
/// line and the number of entries.
pub open spec fn listing_output(es: Seq<Entry>, format: OutputFormat, fmt: Seq<char>) -> Seq<
    Seq<char>,
> {
    match format {
        OutputFormat::Table => table_header() + listing_body(es, format, fmt) + seq![
            Seq::empty(),
            decimal(es.len()) + " entries found"@,
        ],
        _ => listing_body(es, format, fmt),
    }
}

/// `s` padded on the right to `w` characters.
fn pad(s: &str, w: usize) -> (r: String)
    ensures
        r@ == pad_right(s@, w as nat),
{
    let n = chars_of(s).len();
    let mut out = s.to_owned();
    let mut k: usize = n;
    while k < w
        invariant
            n == s@.len(),
            n <= k,
            k <= w || k == n,
            out@ == s@ + spaces((k - n) as nat),
        decreases w - k,
    {
        let ghost before = out@;
        out.push(' ');
        assert(spaces((k + 1 - n) as nat) =~= spaces((k - n) as nat).push(' '));
        k += 1;
    }
    assert(n >= w ==> spaces((k - n) as nat) =~= Seq::<char>::empty());
    out
}

/// `s`, cut to `keep` characters and `"..."` when longer than `max`.
fn cut(s: &str, max: usize, keep: usize) -> (r: String)
    requires
        keep <= max,
    ensures
        r@ == cell(s@, max as nat, keep as nat),
{
    let c = chars_of(s);
    if c.len() > max {
        let mut out = string_of(&crate::text::slice_range(&c, 0, keep));
        assert(c@.subrange(0, keep as int) =~= c@.take(keep as int));
        out.append("...");
        out
    } else {
        s.to_owned()
    }
}

/// `n` dashes.
fn dash_line(n: usize) -> (r: String)
    ensures
        r@ == dashes(n as nat),
{
    let mut out = String::new();
    let mut k: usize = 0;
    while k < n
        invariant
            k <= n,
            out@ == dashes(k as nat),
        decreases n - k,
    {
        out.push('-');
        assert(dashes((k + 1) as nat) =~= dashes(k as nat).push('-'));
        k += 1;
    }
    out
}

/// `a + b + c`.
fn concat3(a: &str, b: &str, c: &str) -> (r: String)
    ensures
        r@ == a@ + b@ + c@,
{
    let mut out = a.to_owned();
    out.append(b);
    out.append(c);
    out
}

/// The lines printed for one entry of a listing (`entry_block`).
fn entry_lines(e: &Entry, format: OutputFormat, fmt: &str) -> (r: Vec<String>)
    ensures
        texts(r@) == entry_block(*e, format, fmt@),
{
    let id = e.id.0.as_str();
    let r: Vec<String> = match format {
        OutputFormat::Json => {
            let title = title_text(e, "N/A");
            let authors = joined_authors(e, "; ");
            let mut year = String::from_str("  \"year\": ");
            year.append(year_text(e, "null").as_str());
            vec![
                String::from_str("{"),
                concat3("  \"citekey\": \"", id, "\","),
                concat3("  \"type\": \"", e.entry_type.as_str(), "\","),
                concat3("  \"title\": \"", title.as_str(), "\","),
                concat3("  \"authors\": \"", authors.as_str(), "\","),
                year,
                String::from_str("}"),
            ]
        },
        OutputFormat::Yaml => {
            let title = title_text(e, "N/A");
            let authors = joined_authors(e, "; ");
            let year = year_text(e, "null");
            vec![
                concat3("- citekey: ", id, ""),
                concat3("  type: ", e.entry_type.as_str(), ""),
                concat3("  title: ", title.as_str(), ""),
                concat3("  authors: ", authors.as_str(), ""),
                concat3("  year: ", year.as_str(), ""),
            ]
        },
        OutputFormat::Plain => vec![format_entry(e, fmt)],
        OutputFormat::Table => {
            let title = cut(title_text(e, "N/A").as_str(), 37, 34);
            let authors = cut(joined_authors(e, "; ").as_str(), 27, 24);
            let mut row = pad(id, 20);
            row.append(" ");
            row.append(pad(title.as_str(), 40).as_str());
            row.append(" ");
            row.append(pad(authors.as_str(), 30).as_str());
            vec![row]
        },
    };
    proof {
        reveal_strlit("");
        assert(""@ =~= Seq::<char>::empty());
        assert(texts(r@) =~= entry_block(*e, format, fmt@));
    }
    r
}

/// What a listing of `entries` prints in `format`, line by line; the plain
/// format writes each entry by `display_format`.
pub fn listing_lines(entries: &[&Entry], format: OutputFormat, display_format: &str) -> (r: Vec<String>)
    ensures
        texts(r@) == listing_output(derefs(entries@), format, display_format@),
{
    let ghost es = derefs(entries@);
    let mut out: Vec<String> = Vec::new();
    if format == OutputFormat::Table {
        let mut head = pad("Citekey", 20);
        head.append(" ");
        head.append(pad("Title", 40).as_str());
        head.append(" ");
        head.append(pad("Authors", 30).as_str());
        out.push(head);
        out.push(dash_line(90));
    }
    let ghost start = texts(out@);
    assert(start =~= (if format == OutputFormat::Table {
        table_header()
    } else {
        Seq::empty()
    }));
    let mut i: usize = 0;
    while i < entries.len()
        invariant
            i <= entries@.len(),
            es == derefs(entries@),
            texts(out@) == start + listing_body(es.take(i as int), format, display_format@),
        decreases entries.len() - i,
    {
        let mut block = entry_lines(entries[i], format, display_format);
        let ghost before = texts(out@);
        let ghost bt = texts(block@);
        out.append(&mut block);
        assert(texts(out@) =~= before + bt);
        assert(es.take(i + 1).drop_last() =~= es.take(i as int));
        assert(es.take(i + 1).last() == *entries@[i as int]);
        assert(texts(out@) =~= start + listing_body(es.take(i + 1), format, display_format@));
        i += 1;
    }
    assert(es.take(i as int) =~= es);
    if format == OutputFormat::Table {
        out.push(String::new());
        let mut last = decimal_text(entries.len());
        last.append(" entries found");
        out.push(last);
    }
    proof {
        assert(texts(out@) =~= listing_output(es, format, display_format@));
    }
    out
}


/// The field lines of `show`: `name: value` for each field, in order.
pub open spec fn field_lines(ps: Seq<(Seq<char>, Seq<char>)>) -> Seq<Seq<char>> {
    ps.map_values(|p: (Seq<char>, Seq<char>)| p.0 + ": "@ + p.1)
}

/// What `show` prints for `e`: key, type, title, authors and year, and in
/// every format but the table also each field.
pub open spec fn show_output(e: Entry, format: OutputFormat) -> Seq<Seq<char>> {
    let head = seq![
        "Citekey: "@ + e.id.0@,
        "Type: "@ + e.entry_type@,
        "Title: "@ + title_or(e, not_available()),
        "Authors: "@ + authors_joined(e, "; "@),
        "Year: "@ + year_or(e, not_available()),
    ];
    if format == OutputFormat::Table {
        head
    } else {
        head + field_lines(e.fields@)
    }
}

/// What `show` prints for `entry` in `format`, line by line.
pub fn show_lines(entry: &Entry, format: OutputFormat) -> (r: Vec<String>)
    ensures
        texts(r@) == show_output(*entry, format),
{
    let title = title_text(entry, "N/A");
    let authors = joined_authors(entry, "; ");
    let year = year_text(entry, "N/A");
    let mut out: Vec<String> = vec![
        concat3("Citekey: ", entry.id.0.as_str(), ""),
        concat3("Type: ", entry.entry_type.as_str(), ""),
        concat3("Title: ", title.as_str(), ""),
        concat3("Authors: ", authors.as_str(), ""),
        concat3("Year: ", year.as_str(), ""),
    ];
    proof {
        reveal_strlit("");
        assert(""@ =~= Seq::<char>::empty());
    }
    let ghost head = texts(out@);
    if format != OutputFormat::Table {
        let mut i: usize = 0;
        while i < entry.fields.len()
            invariant
                i <= entry.fields@.len(),
                texts(out@) == head + field_lines(entry.fields@.take(i as int)),
            decreases entry.fields@.len() - i,
        {
            let line = concat3(entry.fields.key_at(i).as_str(), ": ", entry.fields.value_at(i).as_str());
            let ghost before = texts(out@);
            out.push(line);
            assert(field_lines(entry.fields@.take(i + 1)) =~= field_lines(
                entry.fields@.take(i as int),
            ).push(line@));
            assert(texts(out@) =~= before.push(line@));
            i += 1;
        }
        assert(entry.fields@.take(i as int) =~= entry.fields@);
    }
    assert(texts(out@) =~= show_output(*entry, format));
    out
}

/// The text of a duplicate found when merging `part` into `acc`: the first
/// entry `j` of `part` whose key `acc` already holds.
pub open spec fn duplicate_text(acc: Seq<Entry>, part: Seq<Entry>, j: int) -> Seq<char> {
    let id = part[j].id.0@;
    "duplicate citekey `"@ + id + "` found in `"@ + part[j].provenance.file_path@
        + "`; already loaded from `"@ + acc[id_index(acc, id)].provenance.file_path@ + "`"@
}

/// Merging the loaded files one after the other: the entries and sources
/// gathered, and the text of each file skipped for a duplicate key.
pub open spec fn merge_state(parts: Seq<(Seq<Entry>, Seq<Seq<char>>)>) -> (
    Seq<Entry>,
    Seq<Seq<char>>,
    Seq<Seq<char>>,
)
    decreases parts.len(),
{
    if parts.len() == 0 {
        (Seq::empty(), Seq::empty(), Seq::empty())
    } else {
        let (es, srcs, ws) = merge_state(parts.drop_last());
        let (pe, ps) = parts.last();
        match first_shared(es, pe, 0) {
            Some(j) => (es, srcs, ws.push(duplicate_text(es, pe, j))),
            None => (es + pe, push_sources_spec(srcs, ps), ws),
        }
    }
}

/// The entries and sources of each bibliography.
pub open spec fn parts_view(v: Seq<Bibliography>) -> Seq<(Seq<Entry>, Seq<Seq<char>>)> {
    v.map_values(|b: Bibliography| (b.entries_view(), b.sources_view()))
}

/// The text of the error when no file yields an entry.
pub open spec fn no_entries_text() -> Seq<char> {
    "No entries found in configured BibTeX files"@
}

/// Merges the bibliographies loaded from the configured files, in order. A
/// file that repeats a citation key already loaded is skipped and its
/// duplicate reported among the warnings; when no entry remains the result
/// is an error.
pub fn merge_loaded(parts: Vec<Bibliography>) -> (r: Result<(Bibliography, Vec<String>), String>)
    requires
        forall|i: int| 0 <= i < parts@.len() ==> (#[trigger] parts@[i]).wf(),
    ensures
        ({
            let (es, srcs, ws) = merge_state(parts_view(parts@));
            &&& r is Ok <==> es.len() > 0
            &&& r matches Ok((b, w)) ==> b.wf() && b.entries_view() == es && b.sources_view() == srcs
                && texts(w@) == ws
            &&& r matches Err(m) ==> m@ == no_entries_text()
        }),
{
    let ghost pv = parts_view(parts@);
    let ghost orig = parts@;
    let n = parts.len();
    let mut rest = parts;
    let mut bib = Bibliography::new();
    let mut warnings: Vec<String> = Vec::new();
    let mut k: usize = 0;
    assert(pv.take(0) =~= Seq::<(Seq<Entry>, Seq<Seq<char>>)>::empty());
    assert(texts(warnings@) =~= Seq::<Seq<char>>::empty());
    while rest.len() > 0
        invariant
            k <= n,
            n == orig.len(),
            rest@ == orig.skip(k as int),
            pv == parts_view(orig),
            forall|i: int| 0 <= i < orig.len() ==> (#[trigger] orig[i]).wf(),
            bib.wf(),
            merge_state(pv.take(k as int)) == (bib.entries_view(), bib.sources_view(), texts(
                warnings@,
            )),
        decreases rest.len(),
    {
        let part = rest.remove(0);
        assert(part == orig[k as int]);
        assert(pv.take(k + 1).drop_last() =~= pv.take(k as int));
        assert(pv.take(k + 1).last() == (part.entries_view(), part.sources_view()));
        let ghost acc = bib.entries_view();
        match bib.merge(part) {
            Ok(()) => {},
            Err(MergeError::Duplicate(e)) => {
                let m = e.message();
                let ghost before = texts(warnings@);
                warnings.push(m);
                assert(texts(warnings@) =~= before.push(m@));
            },
        }
        k += 1;
        assert(rest@ =~= orig.skip(k as int));
    }
    assert(pv.take(k as int) =~= pv);
    if bib.len() == 0 {
        Err(String::from_str("No entries found in configured BibTeX files"))
    } else {
        Ok((bib, warnings))
    }
}


/// The lines that describe one skipped block (the `i`-th warning, counted
/// from zero): a blank line, its number, its lines, its key if one was
/// found, and the reason.
pub open spec fn warning_block(i: nat, w: LoadWarning) -> Seq<Seq<char>> {
    seq![Seq::empty(), "   Warning #"@ + decimal(i + 1) + ":"@, "   Lines: "@ + decimal(
        w.line_start as nat,
    ) + "-"@ + decimal(w.line_end as nat)] + match w.citekey {
        Some(k) => seq!["   Citekey: "@ + k@],
        None => Seq::empty(),
    } + seq!["   Reason: "@ + w.message@]
}

/// The blocks of the warnings `ws`, numbered from zero.
pub open spec fn warning_blocks(ws: Seq<LoadWarning>) -> Seq<Seq<char>>
    decreases ws.len(),
{
    if ws.len() == 0 {
        Seq::empty()
    } else {
        warning_blocks(ws.drop_last()) + warning_block((ws.len() - 1) as nat, ws.last())
    }
}

/// `a - b`, or zero when `b` is larger.
pub open spec fn sat_sub(a: nat, b: nat) -> nat {
    if a >= b {
        (a - b) as nat
    } else {
        0
    }
}

/// The number of blocks that gave neither an entry nor a warning.
pub open spec fn silently_skipped(total: nat, parsed: nat, warned: nat) -> nat {
    sat_sub(sat_sub(total, parsed), warned)
}

/// What `doctor` prints about a loaded file: the statistics, the warnings
/// (or that all went well), the blocks skipped without a warning, and a tip.
pub open spec fn doctor_output(total: nat, parsed: nat, ws: Seq<LoadWarning>) -> Seq<Seq<char>> {
    let missing = silently_skipped(total, parsed, ws.len());
    seq![
        "📊 Statistics:"@,
        "   Total blocks found: "@ + decimal(total),
        "   Entries parsed: "@ + decimal(parsed),
        "   Warnings: "@ + decimal(ws.len()),
    ] + (if ws.len() == 0 {
        seq![Seq::empty(), "\u{2705} All entries loaded successfully!"@]
    } else {
        seq![Seq::empty(), "\u{26a0}\u{fe0f}  Warnings ("@ + decimal(ws.len()) + "):"@] + warning_blocks(ws)
    }) + (if missing > 0 {
        seq![
            Seq::empty(),
            "\u{26a0}\u{fe0f}  Note: "@ + decimal(missing)
                + " entries were silently skipped (possibly comments, @string, or @preamble)"@,
        ]
    } else {
        Seq::empty()
    }) + seq![Seq::empty(), "\u{1f4a1} Tip: Run 'bibr list' to see all loaded entries."@]
}

/// The lines of one warning's block.
fn warning_lines(i: usize, w: &LoadWarning) -> (r: Vec<String>)
    requires
        i < usize::MAX,
    ensures
        texts(r@) == warning_block(i as nat, *w),
{
    let mut number = concat3("   Warning #", decimal_text(i + 1).as_str(), ":");
    let mut lines = concat3("   Lines: ", decimal_text(w.line_start).as_str(), "-");
    lines.append(decimal_text(w.line_end).as_str());
    let mut out: Vec<String> = vec![String::new(), number, lines];
    match &w.citekey {
        Some(k) => {
            out.push(concat3("   Citekey: ", k.as_str(), ""));
        },
        None => {},
    }
    out.push(concat3("   Reason: ", w.message.as_str(), ""));
    proof {
        reveal_strlit("");
        assert(""@ =~= Seq::<char>::empty());
        assert(texts(out@) =~= warning_block(i as nat, *w));
    }
    out
}

/// What `doctor` prints about `result`, line by line (`doctor_output`).
pub fn doctor_lines(result: &LoadResult) -> (r: Vec<String>)
    ensures
        texts(r@) == doctor_output(
            result.total_blocks as nat,
            result.parsed_entries as nat,
            result.warnings@,
        ),
{
    let ws = &result.warnings;
    let mut out: Vec<String> = vec![
        String::from_str("📊 Statistics:"),
        concat3("   Total blocks found: ", decimal_text(result.total_blocks).as_str(), ""),
        concat3("   Entries parsed: ", decimal_text(result.parsed_entries).as_str(), ""),
        concat3("   Warnings: ", decimal_text(ws.len()).as_str(), ""),
    ];
    proof {
        reveal_strlit("");
        assert(""@ =~= Seq::<char>::empty());
    }
    let ghost head = texts(out@);
    assert(head =~= seq![
        "📊 Statistics:"@,
        "   Total blocks found: "@ + decimal(result.total_blocks as nat),
        "   Entries parsed: "@ + decimal(result.parsed_entries as nat),
        "   Warnings: "@ + decimal(ws@.len()),
    ]);
    if ws.len() == 0 {
        out.push(String::new());
        out.push(String::from_str("\u{2705} All entries loaded successfully!"));
    } else {
        out.push(String::new());
        out.push(concat3("\u{26a0}\u{fe0f}  Warnings (", decimal_text(ws.len()).as_str(), "):"));
        let ghost mid = texts(out@);
        assert(warning_blocks(ws@.take(0)) =~= Seq::<Seq<char>>::empty());
        let mut i: usize = 0;
        while i < ws.len()
            invariant
                i <= ws@.len(),
                texts(out@) == mid + warning_blocks(ws@.take(i as int)),
            decreases ws.len() - i,
        {
            let mut block = warning_lines(i, &ws[i]);
            let ghost before = texts(out@);
            let ghost bt = texts(block@);
            out.append(&mut block);
            assert(ws@.take(i + 1).drop_last() =~= ws@.take(i as int));
            assert(texts(out@) =~= before + bt);
            i += 1;
        }
        assert(ws@.take(i as int) =~= ws@);
    }
    let ghost after_warnings = texts(out@);
    assert(after_warnings =~= head + (if ws@.len() == 0 {
        seq![Seq::<char>::empty(), "\u{2705} All entries loaded successfully!"@]
    } else {
        seq![Seq::<char>::empty(), "\u{26a0}\u{fe0f}  Warnings ("@ + decimal(ws@.len()) + "):"@] + warning_blocks(ws@)
    }));
    let gap = result.total_blocks.saturating_sub(result.parsed_entries);
    let missing = gap.saturating_sub(ws.len());
    if missing > 0 {
        out.push(String::new());
        out.push(
            concat3(
                "\u{26a0}\u{fe0f}  Note: ",
                decimal_text(missing).as_str(),
                " entries were silently skipped (possibly comments, @string, or @preamble)",
            ),
        );
    }
    let ghost after_missing = texts(out@);
    assert(after_missing =~= after_warnings + (if missing > 0 {
        seq![
            Seq::<char>::empty(),
            "\u{26a0}\u{fe0f}  Note: "@ + decimal(missing as nat)
                + " entries were silently skipped (possibly comments, @string, or @preamble)"@,
        ]
    } else {
        Seq::<Seq<char>>::empty()
    }));
    assert(missing == silently_skipped(result.total_blocks as nat, result.parsed_entries as nat, ws@.len()));
    out.push(String::new());
    out.push(String::from_str("\u{1f4a1} Tip: Run 'bibr list' to see all loaded entries."));
    assert(texts(out@) =~= doctor_output(
        result.total_blocks as nat,
        result.parsed_entries as nat,
        result.warnings@,
    ));
    out
}

/// The configuration that `init` writes.
pub const DEFAULT_CONFIG_TEXT: &'static str = "# BIBR Configuration
# Add your BibTeX files below

bibtex_files = [
    # \"~/path/to/your.bib\",
]

[search]
smart_case = true
fuzzy = true

[keybindings]
up = \"k\"
down = \"j\"
search = \"/\"
quit = \"q\"
edit = \"e\"
note = \"n\"
pdf = \"p\"
copy = \"y\"

[notes]
dir = \"~/.local/share/bibr/notes\"
filename_pattern = \"{citekey}.md\"
";


/// Sorting a listing only reorders it: the same entries, as many times each.
pub proof fn lemma_listing_sort_keeps_entries(es: Seq<Entry>, kind: ListSort)
    ensures
        stable_sort(es, list_le(kind)).to_multiset() == es.to_multiset(),
        stable_sort(es, list_le(kind)).len() == es.len(),
{
    crate::sorting::lemma_stable_sort_perm(es, list_le(kind));
}

} // verus!
