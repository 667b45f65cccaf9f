use bibr::domain::fields::FieldMap;
use bibr::domain::load::{add_parsed_block, load_from_file, load_from_file_with_diagnostics, load_from_files, LoadResult};
use bibr::domain::bibtex::RawEntry;
use bibr::domain::scan::scan_blocks;
use bibr::domain::sort::{SortField, Sorter};
use bibr::domain::{Bibliography, Entry, EntryId, LoadError, MergeError, Provenance};

fn fields(pairs: &[(&str, &str)]) -> FieldMap {
    FieldMap::from_pairs(pairs.iter().map(|(k, v)| (k.to_string(), v.to_string())).collect())
}

fn provenance(path: &str) -> Provenance {
    Provenance { file_path: path.to_string(), line_start: 1, line_end: 10, byte_start: 0, byte_end: 128 }
}

fn sort_entry(citekey: &str, author: Option<&str>, title: Option<&str>, journal: Option<&str>, year: Option<&str>) -> Entry {
    let mut f = FieldMap::new();
    if let Some(author) = author {
        f.insert("author".to_string(), author.to_string());
    }
    if let Some(title) = title {
        f.insert("title".to_string(), title.to_string());
    }
    if let Some(journal) = journal {
        f.insert("journal".to_string(), journal.to_string());
    }
    if let Some(year) = year {
        f.insert("year".to_string(), year.to_string());
    }
    Entry {
        id: EntryId::from(citekey),
        entry_type: "article".to_string(),
        fields: f,
        provenance: Provenance { file_path: "library.bib".to_string(), line_start: 1, line_end: 1, byte_start: 0, byte_end: 1 },
    }
}

fn ids(entries: &[&Entry]) -> Vec<String> {
    entries.iter().map(|entry| entry.id.0.clone()).collect()
}

#[test]
fn entry_creation_and_field_access_work() {
    let entry = Entry {
        id: EntryId::from("knuth1984"),
        entry_type: "article".to_string(),
        fields: fields(&[
            ("title", "Literate Programming"),
            ("author", "Knuth, Donald E. and Lamport, Leslie"),
            ("year", "1984"),
        ]),
        provenance: provenance("tests/fixtures/test.bib"),
    };

    assert_eq!(entry.get_field("title"), Some("Literate Programming"));
    assert_eq!(entry.authors(), vec!["Knuth, Donald E.".to_string(), "Lamport, Leslie".to_string()]);
    assert_eq!(entry.title(), Some("Literate Programming"));
    assert_eq!(entry.year(), Some(1984));
}

#[test]
fn bibliography_add_and_merge_work() {
    let mut left = Bibliography::new();
    let mut right = Bibliography::new();

    let entry_a = Entry {
        id: EntryId::from("alpha"),
        entry_type: "article".to_string(),
        fields: fields(&[("title", "Alpha")]),
        provenance: Provenance { file_path: "left.bib".to_string(), line_start: 1, line_end: 1, byte_start: 0, byte_end: 10 },
    };
    let entry_b = Entry {
        id: EntryId::from("beta"),
        entry_type: "book".to_string(),
        fields: fields(&[("title", "Beta")]),
        provenance: Provenance { file_path: "right.bib".to_string(), line_start: 1, line_end: 1, byte_start: 0, byte_end: 10 },
    };

    left.add_entry(entry_a).unwrap();
    right.add_entry(entry_b).unwrap();
    left.merge(right).unwrap();

    assert_eq!(left.len(), 2);
    assert!(left.get(&EntryId::from("alpha")).is_some());
    assert!(left.get(&EntryId::from("beta")).is_some());
    assert_eq!(left.sources().len(), 2);
}

#[test]
fn duplicate_citekeys_are_rejected() {
    let source = r#"
@article{dupkey,
  title = {First},
  author = {One, Author},
  year = {2020}
}

@book{dupkey,
  title = {Second},
  author = {Two, Author},
  year = {2021}
}
"#;
    let error = load_from_file("duplicate.bib", source).unwrap_err();
    assert!(matches!(error, LoadError::Duplicate(_)));
}

#[test]
fn malformed_entries_are_skipped_with_warning() {
    let source = r#"
@article{validone,
  title = {Valid Entry},
  author = {Doe, Jane and Smith, John},
  year = {2022}
}

@article{broken,
  title = {Broken Entry},
  author = {Nobody, Example},
  year =
}

@book{validtwo,
  title = {Another Valid Entry},
  author = {Roe, Richard},
  year = {2023},
  url = {https://example.com/book}
}
"#;
    let bibliography = load_from_file("malformed.bib", source).unwrap();

    assert_eq!(bibliography.len(), 2);
    assert!(bibliography.get(&EntryId::from("validone")).is_some());
    assert!(bibliography.get(&EntryId::from("validtwo")).is_some());
    assert!(bibliography.get(&EntryId::from("broken")).is_none());
}

#[test]
fn diagnostics_report_skipped_block() {
    let source = "@article{ok,\n  title = {Fine}\n}\n\n@article{bad,\n  title = {Broken},\n  year =\n}\n";
    let result = load_from_file_with_diagnostics("lib.bib", source).unwrap();
    assert_eq!(result.total_blocks, 2);
    assert_eq!(result.parsed_entries, 1);
    assert_eq!(result.warnings.len(), 1);
    assert_eq!(result.warnings[0].citekey.as_deref(), Some("bad"));
    assert_eq!(result.warnings[0].line_start, 5);
}

#[test]
fn loaded_entries_remember_where_they_came_from() {
    let source = "% comment\n@article{alpha,\n  title = {Alpha},\n  year = {2020}\n}\n";
    let bibliography = load_from_file("alpha.bib", source).unwrap();
    let entry = bibliography.get(&EntryId::from("alpha")).unwrap();
    assert_eq!(entry.provenance.file_path, "alpha.bib");
    assert_eq!(entry.provenance.line_start, 2);
    assert_eq!(entry.provenance.line_end, 5);
    assert_eq!(entry.title(), Some("Alpha"));
    assert_eq!(entry.year(), Some(2020));
}

#[test]
fn loading_several_files_reports_duplicates_across_files() {
    let first = "@article{same,\n  title = {One}\n}\n".to_string();
    let second = "@article{same,\n  title = {Two}\n}\n".to_string();
    let files = vec![("a.bib".to_string(), Ok(first)), ("b.bib".to_string(), Ok(second))];
    match load_from_files(&files) {
        Err(LoadError::Duplicate(e)) => {
            assert_eq!(e.id.0, "same");
            assert_eq!(e.existing_path, "a.bib");
            assert_eq!(e.duplicate_path, "b.bib");
        }
        _ => panic!("duplicate keys across files must fail"),
    }
    let unreadable = vec![("c.bib".to_string(), Err("denied".to_string()))];
    match load_from_files(&unreadable) {
        Err(LoadError::Io { path, message }) => {
            assert_eq!(path, "c.bib");
            assert_eq!(message, "denied");
        }
        _ => panic!("an unreadable file must fail"),
    }
}

#[test]
fn merging_a_duplicate_leaves_the_bibliography_unchanged() {
    let mut left = Bibliography::new();
    left.add_entry(sort_entry("alpha", None, Some("A"), None, None)).unwrap();
    let mut right = Bibliography::new();
    right.add_entry(sort_entry("beta", None, Some("B"), None, None)).unwrap();
    right.add_entry(sort_entry("alpha", None, Some("C"), None, None)).unwrap();
    match left.merge(right) {
        Err(MergeError::Duplicate(e)) => {
            assert_eq!(e.id.0, "alpha");
            assert_eq!(e.message(), "duplicate citekey `alpha` found in `library.bib`; already loaded from `library.bib`");
        }
        Ok(()) => panic!("merge must fail"),
    }
    assert_eq!(left.len(), 1);
}

#[test]
fn adding_a_key_twice_is_refused() {
    let mut bib = Bibliography::new();
    bib.add_entry(sort_entry("alpha", None, None, None, None)).unwrap();
    assert!(bib.add_entry(sort_entry("alpha", None, None, None, None)).is_err());
    assert_eq!(bib.len(), 1);
}

#[test]
fn sorts_by_year_with_missing_values_last() {
    let older = sort_entry("older", Some("Knuth, Donald"), Some("A"), Some("Journal B"), Some("1984"));
    let newer = sort_entry("newer", Some("Lamport, Leslie"), Some("B"), Some("Journal A"), Some("1994"));
    let missing = sort_entry("missing", Some("Ada, Example"), Some("C"), None, None);
    let mut entries = vec![&missing, &newer, &older];

    Sorter::sort(&mut entries, SortField::Year, true);
    assert_eq!(ids(&entries), vec!["older", "newer", "missing"]);

    Sorter::sort(&mut entries, SortField::Year, false);
    assert_eq!(ids(&entries), vec!["newer", "older", "missing"]);
}

#[test]
fn sorts_by_first_author() {
    let zebra = sort_entry("zebra", Some("Zebra, Zoe and Able, Amy"), Some("A"), None, Some("2020"));
    let able = sort_entry("able", Some("Able, Amy and Zebra, Zoe"), Some("B"), None, Some("2021"));
    let mut entries = vec![&zebra, &able];

    Sorter::sort(&mut entries, SortField::Author, true);

    assert_eq!(ids(&entries), vec!["able", "zebra"]);
}

#[test]
fn sorts_by_journal_then_citekey() {
    let beta = sort_entry("beta", None, Some("A"), Some("Beta Journal"), Some("2020"));
    let alpha = sort_entry("alpha", None, Some("B"), Some("Alpha Journal"), Some("2020"));
    let alpha_two = sort_entry("alpha-two", None, Some("C"), Some("Alpha Journal"), Some("2020"));
    let mut entries = vec![&beta, &alpha_two, &alpha];

    Sorter::sort(&mut entries, SortField::Journal, true);

    assert_eq!(ids(&entries), vec!["alpha", "alpha-two", "beta"]);
}

#[test]
fn sorting_twice_gives_the_same_order() {
    let a = sort_entry("a", None, Some("Zeta"), None, None);
    let b = sort_entry("b", None, Some("alpha"), None, None);
    let c = sort_entry("c", None, None, None, None);
    let mut entries = vec![&a, &c, &b];
    Sorter::sort(&mut entries, SortField::Title, true);
    let once = ids(&entries);
    Sorter::sort(&mut entries, SortField::Title, true);
    assert_eq!(ids(&entries), once);
    assert_eq!(once, vec!["b", "a", "c"]);
}

#[test]
fn set_field_lowercases_name_and_replaces_value() {
    let mut entry = sort_entry("x", None, Some("Old"), None, None);
    entry.set_field("Title", "New");
    assert_eq!(entry.title(), Some("New"));
    assert_eq!(entry.get_field("TITLE"), Some("New"));
}

#[test]
fn year_must_be_a_number_that_fits() {
    assert_eq!(sort_entry("a", None, None, None, Some(" 2001 ")).year(), Some(2001));
    assert_eq!(sort_entry("b", None, None, None, Some("20x1")).year(), None);
    assert_eq!(sort_entry("c", None, None, None, Some("99999999999")).year(), None);
}

#[test]
fn provenance_records_byte_offsets() {
    let source = "% Müller – naïve\n@article{alpha,\n  title = {Ärger}\n}\n@book{beta,\n  title = {B}\n}\n";
    let bibliography = load_from_file("a.bib", source).unwrap();
    for id in ["alpha", "beta"] {
        let entry = bibliography.get(&EntryId::from(id)).unwrap();
        let block = &source[entry.provenance.byte_start..entry.provenance.byte_end];
        assert!(block.starts_with('@'));
        assert!(block.contains(&format!("{{{id},")));
    }
    let alpha = bibliography.get(&EntryId::from("alpha")).unwrap();
    assert_eq!(alpha.provenance.byte_start, "% Müller – naïve\n".len());
}

fn empty_result() -> LoadResult {
    LoadResult { bibliography: Bibliography::new(), warnings: vec![], total_blocks: 0, parsed_entries: 0 }
}

#[test]
fn parsed_blocks_add_entries_or_warnings() {
    let mut result = empty_result();
    let raw = RawEntry {
        key: "alpha".to_string(),
        entry_type: "article".to_string(),
        fields: vec![("Title".to_string(), "Alpha".to_string())],
    };
    add_parsed_block(&mut result, "a.bib", 2, 4, 10, 40, Some("alpha".to_string()), Ok(vec![raw])).unwrap();
    assert_eq!(result.parsed_entries, 1);
    assert_eq!(result.total_blocks, 1);
    let entry = result.bibliography.get(&EntryId::from("alpha")).unwrap();
    assert_eq!(entry.get_field("title"), Some("Alpha"));
    assert_eq!((entry.provenance.byte_start, entry.provenance.byte_end), (10, 40));

    add_parsed_block(&mut result, "a.bib", 5, 6, 41, 60, Some("broken".to_string()), Err("bad field".to_string())).unwrap();
    assert_eq!(result.warnings.len(), 1);
    assert_eq!(result.warnings[0].message, "Parse error: bad field");
    assert_eq!(result.warnings[0].citekey.as_deref(), Some("broken"));

    add_parsed_block(&mut result, "a.bib", 7, 7, 61, 70, None, Ok(vec![])).unwrap();
    assert_eq!(result.warnings[1].message, "Entry parsed but returned no data");
    assert_eq!(result.total_blocks, 3);
    assert_eq!(result.parsed_entries, 1);
}

#[test]
fn a_parsed_duplicate_key_is_an_error_and_changes_nothing() {
    let mut result = empty_result();
    let raw = || RawEntry { key: "alpha".to_string(), entry_type: "article".to_string(), fields: vec![] };
    add_parsed_block(&mut result, "a.bib", 1, 1, 0, 5, None, Ok(vec![raw()])).unwrap();
    match add_parsed_block(&mut result, "a.bib", 2, 2, 6, 9, None, Ok(vec![raw()])) {
        Err(LoadError::Duplicate(d)) => assert_eq!(d.id.0, "alpha"),
        other => panic!("unexpected: {:?}", other.is_ok()),
    }
    assert_eq!(result.total_blocks, 1);
    assert_eq!(result.bibliography.len(), 1);
}

#[test]
fn scanned_blocks_start_at_an_at_sign_in_order() {
    let text: Vec<char> = "% @skip {x}\n@string{a = {b}}\n@Article{k, t = {@inner}}\nnoise @comment(c)\n".chars().collect();
    let blocks = scan_blocks(&text);
    assert_eq!(blocks.len(), 3);
    for (i, b) in blocks.iter().enumerate() {
        assert_eq!(text[b.start], '@');
        assert!(b.start < b.end && b.end <= text.len());
        if i + 1 < blocks.len() {
            assert!(b.end <= blocks[i + 1].start);
        }
    }
}

#[test]
fn several_files_load_exactly_when_their_keys_are_apart() {
    let a = ("a.bib".to_string(), Ok::<String, String>("@article{x,\n  title = {X}\n}\n".to_string()));
    let b = ("b.bib".to_string(), Ok::<String, String>("@article{y,\n  title = {Y}\n}\n".to_string()));
    let c = ("c.bib".to_string(), Ok::<String, String>("@book{x,\n  title = {X again}\n}\n".to_string()));
    let both = load_from_files(&[a.clone(), b.clone()]).unwrap();
    assert_eq!(both.len(), 2);
    assert!(matches!(load_from_files(&[a.clone(), b.clone(), c]), Err(LoadError::Duplicate(_))));
    let missing = ("m.bib".to_string(), Err::<String, String>("no such file".to_string()));
    assert!(matches!(load_from_files(&[a, missing]), Err(LoadError::Io { .. })));
}

#[test]
fn circular_abbreviations_become_a_warning() {
    let source = "@string{a = a}\n@article{k,\n  title = a\n}\n@article{ok,\n  title = {Fine}\n}\n";
    let result = load_from_file_with_diagnostics("c.bib", source).unwrap();
    assert_eq!(result.parsed_entries, 1);
    assert_eq!(result.warnings.len(), 1);
    assert_eq!(result.warnings[0].message, "Parse error: abbreviations or cross-references lead back to themselves");
    assert_eq!(result.warnings[0].citekey.as_deref(), Some("k"));
    assert!(result.bibliography.get(&EntryId::from("ok")).is_some());
}

#[test]
fn self_links_become_a_warning() {
    let source = "@book{k,\n  crossref = {k},\n  title = {T}\n}\n@book{x,\n  xdata = {x},\n  title = {X}\n}\n";
    let result = load_from_file_with_diagnostics("c.bib", source).unwrap();
    assert_eq!(result.parsed_entries, 0);
    assert_eq!(result.warnings.len(), 2);
}

#[test]
fn chained_abbreviations_and_outside_links_still_load() {
    let source = "@string{b = \"Journal of X\"}\n@string{a = b # \" (2nd)\"}\n@article{k,\n  journal = a,\n  crossref = {proc2020},\n  title = {T}\n}\n";
    let bibliography = load_from_file("c.bib", source).unwrap();
    let entry = bibliography.get(&EntryId::from("k")).unwrap();
    assert_eq!(entry.get_field("journal"), Some("Journal of X (2nd)"));
    assert_eq!(entry.get_field("crossref"), Some("proc2020"));
}
