use bibr::domain::fields::FieldMap;
use bibr::domain::load::load_from_file;
use bibr::domain::{Entry, EntryId, Provenance};
use bibr::infra::bib_store::{render_entry, BibStore};

#[test]
fn save_entry_updates_only_target_block_and_creates_backup() {
    let source = "% header comment\n\n@article{alpha,\n    title = {Alpha Title},\n    author = {Alpha, Ada},\n    year = {2020}\n}\n\n% separator\n@book{beta,\n    title = {Beta Title},\n    author = {Beta, Bob},\n    year = {2021}\n}\n";
    let mut bibliography = load_from_file("library.bib", source).unwrap();
    let entry = bibliography.get_mut(&EntryId::from("alpha")).unwrap();
    entry.set_field("title", "Updated Title");
    let updated_entry = entry.clone();

    let written = BibStore::save_entry(&updated_entry, &bibliography, source).unwrap();

    assert!(written.contains("title = {Updated Title}"));
    assert!(written.contains("% header comment"));
    assert!(written.contains("% separator"));
    assert!(written.contains("@book{beta,"));
    assert!(written.contains("    title = {Beta Title}"));
}

#[test]
fn update_entry_relocates_using_entry_id_when_provenance_is_stale() {
    let original = "@article{alpha,\n  title = {Alpha},\n  year = {2020}\n}\n";
    let mut bibliography = load_from_file("library.bib", original).unwrap();
    let entry = bibliography.get_mut(&EntryId::from("alpha")).unwrap();
    entry.set_field("title", "Relocated");
    let mut detached = entry.clone();

    let prefixed = format!("% inserted later\n\n{original}");
    detached.provenance.byte_start = 0;
    detached.provenance.byte_end = original.len();

    let written = BibStore::update_entry_in_text(&detached, &prefixed).unwrap();

    assert!(written.contains("title = {Relocated}"));
    assert!(written.starts_with("% inserted later"));
}

#[test]
fn update_entry_reports_conflict_when_entry_disappears() {
    let bibliography = load_from_file("library.bib", "@article{alpha,\n  title = {Alpha}\n}\n").unwrap();
    let entry = bibliography.get(&EntryId::from("alpha")).unwrap().clone();

    let error = BibStore::update_entry_in_text(&entry, "@article{renamed,\n  title = {Alpha}\n}\n").unwrap_err();
    assert!(error.contains("unable to locate entry"));
}

#[test]
fn ordered_fields_follow_original_field_order() {
    let entry = Entry {
        id: EntryId::from("alpha"),
        entry_type: "article".to_string(),
        fields: FieldMap::from_pairs(vec![
            ("year".to_string(), "2020".to_string()),
            ("title".to_string(), "Alpha".to_string()),
            ("author".to_string(), "Ada".to_string()),
        ]),
        provenance: Provenance { file_path: "alpha.bib".to_string(), line_start: 1, line_end: 4, byte_start: 0, byte_end: 0 },
    };

    let rendered = render_entry(
        &entry,
        &"@article{alpha,\n    author = {Ada},\n    title = {Alpha},\n    year = {2020}\n}\n".chars().collect::<Vec<char>>(),
    );

    assert_eq!(rendered, "@article{alpha,\n    author = {Ada},\n    title = {Alpha},\n    year = {2020}\n}\n");
}

#[test]
fn saving_an_unknown_entry_is_refused() {
    let bibliography = load_from_file("library.bib", "@article{alpha,\n  title = {Alpha}\n}\n").unwrap();
    let mut other = bibliography.get(&EntryId::from("alpha")).unwrap().clone();
    other.id = EntryId::from("ghost");
    let error = BibStore::save_entry(&other, &bibliography, "").unwrap_err();
    assert_eq!(error, "entry `ghost` is not present in bibliography");
}

#[test]
fn saving_from_another_file_is_refused() {
    let bibliography = load_from_file("library.bib", "@article{alpha,\n  title = {Alpha}\n}\n").unwrap();
    let mut moved = bibliography.get(&EntryId::from("alpha")).unwrap().clone();
    moved.provenance.file_path = "other.bib".to_string();
    let error = BibStore::save_entry(&moved, &bibliography, "").unwrap_err();
    assert_eq!(error, "entry `alpha` provenance does not match bibliography source `library.bib`");
}

#[test]
fn saving_an_unchanged_entry_keeps_the_text() {
    let source = "@article{alpha,\n  title = {Alpha},\n  year = {2020}\n}\n";
    let bibliography = load_from_file("library.bib", source).unwrap();
    let entry = bibliography.get(&EntryId::from("alpha")).unwrap().clone();
    let written = BibStore::save_entry(&entry, &bibliography, source).unwrap();
    assert_eq!(written, source);
}

#[test]
fn update_after_non_ascii_text_finds_the_recorded_block() {
    let source = "% Grüße aus Köln\n@article{alpha,\n  title = {Älter}\n}\n";
    let mut bibliography = load_from_file("library.bib", source).unwrap();
    let entry = bibliography.get_mut(&EntryId::from("alpha")).unwrap();
    entry.set_field("title", "Neu");
    let updated = entry.clone();
    let written = BibStore::save_entry(&updated, &bibliography, source).unwrap();
    assert!(written.starts_with("% Grüße aus Köln\n@article{alpha,"));
    assert!(written.contains("title = {Neu}"));
    assert!(!written.contains("Älter"));
}

#[test]
fn checking_an_unknown_entry_fails_before_any_text_is_read() {
    let bibliography = load_from_file("library.bib", "@article{alpha,\n  title = {A}\n}\n").unwrap();
    let mut other = bibliography.get(&EntryId::from("alpha")).unwrap().clone();
    other.id = EntryId::from("ghost");
    assert_eq!(BibStore::check_entry(&other, &bibliography).unwrap_err(), "entry `ghost` is not present in bibliography");
    let known = bibliography.get(&EntryId::from("alpha")).unwrap();
    assert!(BibStore::check_entry(known, &bibliography).is_ok());
}
