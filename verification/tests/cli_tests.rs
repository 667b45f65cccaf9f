use bibr::cli::{doctor_lines, format_entry, listing_lines, merge_loaded, show_lines, sort_listing, OutputFormat};
use bibr::domain::fields::FieldMap;
use bibr::domain::load::{LoadResult, LoadWarning};
use bibr::domain::{Bibliography, Entry, EntryId, Provenance};

fn entry(id: &str, pairs: &[(&str, &str)], file: &str) -> Entry {
    Entry {
        id: EntryId::from(id),
        entry_type: "article".to_string(),
        fields: FieldMap::from_pairs(pairs.iter().map(|(k, v)| (k.to_string(), v.to_string())).collect()),
        provenance: Provenance { file_path: file.to_string(), line_start: 1, line_end: 1, byte_start: 0, byte_end: 0 },
    }
}

fn knuth() -> Entry {
    entry("knuth1984", &[("author", "Knuth, Donald and Lamport, Leslie"), ("title", "Literate Programming"), ("year", "1984")], "a.bib")
}

fn turing() -> Entry {
    entry("turing1936", &[("author", "Turing, Alan"), ("title", "On Computable Numbers, with an Application to the Entscheidungsproblem")], "a.bib")
}

#[test]
fn output_format_names() {
    assert_eq!(OutputFormat::Table.as_str(), "table");
    assert_eq!(OutputFormat::Json.as_str(), "json");
    assert_eq!(OutputFormat::Yaml.as_str(), "yaml");
    assert_eq!(OutputFormat::Plain.as_str(), "plain");
    assert_eq!(OutputFormat::default(), OutputFormat::Table);
}

#[test]
fn display_format_replaces_placeholders() {
    assert_eq!(format_entry(&knuth(), "{author} - {title} ({citekey}) {year}"), "Knuth, Donald - Literate Programming (knuth1984) 1984");
    assert_eq!(format_entry(&turing(), "{year}|{author}"), "|Turing, Alan");
    let bare = entry("bare", &[], "a.bib");
    assert_eq!(format_entry(&bare, "{title}/{author}"), "N/A/N/A");
}

#[test]
fn listing_sorts_by_year_author_or_title() {
    let a = knuth();
    let b = turing();
    let c = entry("c", &[("author", "Ada"), ("title", "B"), ("year", "1843")], "a.bib");
    let mut v = vec![&a, &b, &c];
    sort_listing(&mut v, "year");
    assert_eq!(v.iter().map(|e| e.id.0.as_str()).collect::<Vec<_>>(), vec!["turing1936", "c", "knuth1984"]);
    sort_listing(&mut v, "author");
    assert_eq!(v.iter().map(|e| e.id.0.as_str()).collect::<Vec<_>>(), vec!["c", "knuth1984", "turing1936"]);
    sort_listing(&mut v, "title");
    assert_eq!(v.iter().map(|e| e.id.0.as_str()).collect::<Vec<_>>(), vec!["c", "knuth1984", "turing1936"]);
    sort_listing(&mut v, "colour");
    assert_eq!(v.iter().map(|e| e.id.0.as_str()).collect::<Vec<_>>(), vec!["c", "knuth1984", "turing1936"]);
}

#[test]
fn table_listing_cuts_long_cells() {
    let a = knuth();
    let b = turing();
    let lines = listing_lines(&[&a, &b], OutputFormat::Table, "");
    assert_eq!(lines[0], format!("{:<20} {:<40} {:<30}", "Citekey", "Title", "Authors"));
    assert_eq!(lines[1], "-".repeat(90));
    assert_eq!(lines[2], format!("{:<20} {:<40} {:<30}", "knuth1984", "Literate Programming", "Knuth, Donald; Lamport, ..."));
    assert_eq!(lines[3], format!("{:<20} {:<40} {:<30}", "turing1936", "On Computable Numbers, with an App...", "Turing, Alan"));
    assert_eq!(lines[4], "");
    assert_eq!(lines[5], "2 entries found");
    assert_eq!(lines.len(), 6);
}

#[test]
fn json_and_yaml_listings() {
    let b = turing();
    let json = listing_lines(&[&b], OutputFormat::Json, "");
    assert_eq!(json, vec![
        "{".to_string(),
        "  \"citekey\": \"turing1936\",".to_string(),
        "  \"type\": \"article\",".to_string(),
        "  \"title\": \"On Computable Numbers, with an Application to the Entscheidungsproblem\",".to_string(),
        "  \"authors\": \"Turing, Alan\",".to_string(),
        "  \"year\": null".to_string(),
        "}".to_string(),
    ]);
    let a = knuth();
    let yaml = listing_lines(&[&a], OutputFormat::Yaml, "");
    assert_eq!(yaml[0], "- citekey: knuth1984");
    assert_eq!(yaml[3], "  authors: Knuth, Donald; Lamport, Leslie");
    assert_eq!(yaml[4], "  year: 1984");
    let plain = listing_lines(&[&a], OutputFormat::Plain, "{citekey}: {title}");
    assert_eq!(plain, vec!["knuth1984: Literate Programming".to_string()]);
}

#[test]
fn show_lists_fields_except_in_table_format() {
    let a = knuth();
    let table = show_lines(&a, OutputFormat::Table);
    assert_eq!(table, vec![
        "Citekey: knuth1984".to_string(),
        "Type: article".to_string(),
        "Title: Literate Programming".to_string(),
        "Authors: Knuth, Donald; Lamport, Leslie".to_string(),
        "Year: 1984".to_string(),
    ]);
    let yaml = show_lines(&a, OutputFormat::Yaml);
    assert_eq!(yaml.len(), 8);
    assert_eq!(yaml[5], "author: Knuth, Donald and Lamport, Leslie");
    assert_eq!(yaml[7], "year: 1984");
}

#[test]
fn merging_loaded_files_skips_duplicates_with_a_warning() {
    let mut first = Bibliography::new();
    first.add_entry(knuth()).unwrap();
    let mut second = Bibliography::new();
    second.add_entry(entry("knuth1984", &[], "b.bib")).unwrap();
    let mut third = Bibliography::new();
    third.add_entry(entry("dijkstra1968", &[], "c.bib")).unwrap();
    let (bib, warnings) = merge_loaded(vec![first, second, third]).unwrap();
    assert_eq!(bib.len(), 2);
    assert_eq!(warnings, vec!["duplicate citekey `knuth1984` found in `b.bib`; already loaded from `a.bib`".to_string()]);
}

#[test]
fn merging_nothing_is_an_error() {
    assert_eq!(merge_loaded(vec![Bibliography::new()]).unwrap_err(), "No entries found in configured BibTeX files");
}

#[test]
fn doctor_reports_statistics_and_warnings() {
    let result = LoadResult {
        bibliography: Bibliography::new(),
        warnings: vec![LoadWarning { line_start: 3, line_end: 5, citekey: Some("bad".to_string()), message: "unexpected end".to_string() }],
        total_blocks: 4,
        parsed_entries: 2,
    };
    let lines = doctor_lines(&result);
    assert_eq!(lines[0], "\u{1f4ca} Statistics:");
    assert_eq!(lines[1], "   Total blocks found: 4");
    assert_eq!(lines[3], "   Warnings: 1");
    assert_eq!(lines[5], "\u{26a0}\u{fe0f}  Warnings (1):");
    assert_eq!(lines[7], "   Warning #1:");
    assert_eq!(lines[8], "   Lines: 3-5");
    assert_eq!(lines[9], "   Citekey: bad");
    assert_eq!(lines[10], "   Reason: unexpected end");
    assert_eq!(lines[12], "\u{26a0}\u{fe0f}  Note: 1 entries were silently skipped (possibly comments, @string, or @preamble)");
    assert_eq!(lines.last().unwrap(), "\u{1f4a1} Tip: Run 'bibr list' to see all loaded entries.");
}

#[test]
fn doctor_without_warnings() {
    let result = LoadResult { bibliography: Bibliography::new(), warnings: vec![], total_blocks: 1, parsed_entries: 1 };
    let lines = doctor_lines(&result);
    assert_eq!(lines[5], "\u{2705} All entries loaded successfully!");
    assert_eq!(lines.len(), 8);
}
