use bibr::config::NotesConfig;
use bibr::domain::fields::FieldMap;
use bibr::domain::{Entry, EntryId, Provenance};
use bibr::services::notes::clock::LocalTime;
use bibr::services::notes::names::{extract_surname, normalize_author_name, parse_author_name, sanitize_filename_segment, split_command_line};
use bibr::services::notes::NotesService;

fn sample_entry() -> Entry {
    Entry {
        id: EntryId("Doe2024".to_string()),
        entry_type: "article".to_string(),
        fields: FieldMap::from_pairs(vec![
            ("author".to_string(), "Doe, Jane and John Smith".to_string()),
            ("title".to_string(), "Understanding Note Systems".to_string()),
            ("year".to_string(), "2024".to_string()),
        ]),
        provenance: Provenance { file_path: "library.bib".to_string(), line_start: 1, line_end: 1, byte_start: 0, byte_end: 0 },
    }
}

fn service(dir: &str, pattern: &str, template: Option<String>) -> NotesService {
    NotesService::new(NotesConfig { notes_dir: dir.to_string(), filename_pattern: pattern.to_string(), template_file: template })
}

fn temp_dir() -> (tempfile::TempDir, String) {
    let temp = tempfile::tempdir().expect("temp dir should be created");
    let path = temp.path().display().to_string();
    (temp, path)
}

fn content_for(template: &str, entry: &Entry) -> String {
    let (_temp, dir) = temp_dir();
    let service = service(&dir, "{citekey}.md", Some(format!("{dir}/template.md")));
    service.generate_note_content(entry, Some(template)).expect("content should be generated")
}

/// 2024-03-05 14:30:00 UTC.
fn fixed_time() -> LocalTime {
    LocalTime { secs: 1_709_649_000, nanos: 0, offset: 0 }
}

#[test]
fn note_path_uses_default_pattern() {
    let (_temp, dir) = temp_dir();
    let path = service(&dir, "{citekey}.md", None).note_path(&sample_entry());
    assert_eq!(path, format!("{dir}/Doe2024.md"));
}

#[test]
fn note_path_supports_transforms_and_patterns() {
    let (_temp, dir) = temp_dir();
    let service = service(&dir, "{citekey:lower}-{authors:%L:slice(0,3)}-{year}-{date:%Y-%m-%d}.md", None);
    let path = service.note_path(&sample_entry());
    let today = chrono::Local::now().format("%Y-%m-%d").to_string();
    assert_eq!(path, format!("{dir}/doe2024-Doe-Smith-2024-{today}.md"));
}

#[test]
fn note_path_at_a_fixed_moment() {
    let service = service("/notes", "{citekey}-{date:%Y-%m-%d}.md", None);
    assert_eq!(service.note_path_at(&sample_entry(), fixed_time()), "/notes/Doe2024-2024-03-05.md");
}

#[test]
fn note_path_joins_multiple_author_surnames() {
    let (_temp, dir) = temp_dir();
    let path = service(&dir, "{authors:join}.md", None).note_path(&sample_entry());
    assert_eq!(path, format!("{dir}/Doe-Smith.md"));
}

#[test]
fn note_path_truncates_and_sanitizes_title() {
    let (_temp, dir) = temp_dir();
    let mut entry = sample_entry();
    entry.set_field("title", "A Very Long Title With / Forbidden Characters: And More Than Forty Eight Characters");
    let path = service(&dir, "{title}.md", None).note_path(&entry);
    assert_eq!(path, format!("{dir}/A-Very-Long-Title-With-Forbidden-Characters-A.md"));
}

#[test]
fn generate_note_content_substitutes_template_variables() {
    let content = content_for("citekey={citekey}\nauthors={authors:join}\ntitle={title}\nyear={year}\n", &sample_entry());
    assert!(content.contains("citekey=Doe2024"));
    assert!(content.contains("authors=Doe, Smith"));
    assert!(content.contains("title=Understanding Note Systems"));
    assert!(content.contains("year=2024"));
}

#[test]
fn default_template_names_the_title() {
    let (_temp, dir) = temp_dir();
    let content = service(&dir, "{citekey}.md", None).generate_note_content(&sample_entry(), None).unwrap();
    assert!(content.contains("# Notes on Understanding Note Systems"));
}

#[test]
fn note_path_uses_arbitrary_bibtex_fields() {
    let (_temp, dir) = temp_dir();
    let mut entry = sample_entry();
    entry.fields.insert("journal".to_string(), "Nature".to_string());
    let path = service(&dir, "{citekey}-{journal}.md", None).note_path(&entry);
    assert_eq!(path, format!("{dir}/Doe2024-Nature.md"));
}

#[test]
fn note_path_keeps_placeholder_for_missing_fields() {
    let (_temp, dir) = temp_dir();
    let path = service(&dir, "{citekey}-{publisher}.md", None).note_path(&sample_entry());
    assert!(path.contains("publisher"));
}

#[test]
fn note_path_uses_default_value_for_missing_fields() {
    let (_temp, dir) = temp_dir();
    let path = service(&dir, "{citekey}-{publisher/unknown}.md", None).note_path(&sample_entry());
    assert_eq!(path, format!("{dir}/Doe2024-unknown.md"));
}

#[test]
fn template_substitutes_arbitrary_bibtex_fields() {
    let mut entry = sample_entry();
    entry.fields.insert("journal".to_string(), "Science".to_string());
    assert!(content_for("Published in: {journal}", &entry).contains("Published in: Science"));
}

#[test]
fn template_keeps_placeholder_for_missing_fields() {
    assert!(content_for("Volume: {volume}", &sample_entry()).contains("Volume: {volume}"));
}

#[test]
fn template_uses_default_value_for_missing_fields() {
    assert!(content_for("Volume: {volume/N/A}", &sample_entry()).contains("Volume: N/A"));
}

#[test]
fn template_uses_field_value_when_exists_despite_default() {
    let mut entry = sample_entry();
    entry.fields.insert("volume".to_string(), "42".to_string());
    let content = content_for("Volume: {volume/N/A}", &entry);
    assert!(content.contains("Volume: 42"));
    assert!(!content.contains("N/A"));
}

#[test]
fn template_authors_format_first_last() {
    assert!(content_for("Authors: {authors:%F %L}", &sample_entry()).contains("Authors: Jane Doe, John Smith"));
}

#[test]
fn template_authors_format_last_first() {
    assert!(content_for("Authors: {authors:%L, %F}", &sample_entry()).contains("Authors: Doe, Jane, Smith, John"));
}

#[test]
fn template_authors_slice_first_three() {
    let mut entry = sample_entry();
    entry.fields.insert("author".to_string(), "Doe, Jane and Smith, John and Brown, Alice".to_string());
    assert!(content_for("Authors: {authors:slice(0,3)}", &entry).contains("Authors: Doe, Jane, Smith, John, Brown, Alice"));
}

#[test]
fn template_authors_join_with_separator() {
    assert!(content_for("Authors: {authors:%F %L:join( and )}", &sample_entry()).contains("Authors: Jane Doe and John Smith"));
}

#[test]
fn template_authors_slice_and_join() {
    let mut entry = sample_entry();
    entry.fields.insert("author".to_string(), "Doe, Jane and Smith, John and Brown, Alice".to_string());
    assert!(content_for("First two: {authors:slice(0,2):join(, )}", &entry).contains("First two: Doe, Jane, Smith, John"));
}

#[test]
fn template_authors_full_chain_example() {
    let mut entry = sample_entry();
    entry.fields.insert("author".to_string(), "Doe, Jane and Smith, John and Brown, Alice".to_string());
    assert!(content_for("Authors: {authors:%F %L:slice(0,3):join(, ):lower}", &entry)
        .contains("Authors: jane doe, john smith, alice brown"));
}

#[test]
fn author_names_split_into_given_names_and_surname() {
    assert_eq!(parse_author_name("Doe, Jane"), ("Jane".to_string(), "Doe".to_string()));
    assert_eq!(parse_author_name("John Smith"), ("John".to_string(), "Smith".to_string()));
    assert_eq!(parse_author_name("Plato"), (String::new(), "Plato".to_string()));
    assert_eq!(extract_surname("  van Rossum, Guido "), "van Rossum");
    assert_eq!(extract_surname("Ada Lovelace"), "Lovelace");
    assert_eq!(normalize_author_name("Jane Doe"), "Doe, Jane");
    assert_eq!(normalize_author_name("Doe, Jane"), "Doe, Jane");
}

#[test]
fn filename_segments_are_sanitized() {
    assert_eq!(sanitize_filename_segment("a/b: c"), "a-b-c");
    assert_eq!(sanitize_filename_segment("--x--"), "x");
}

#[test]
fn editor_command_lines_keep_quoted_words() {
    assert_eq!(split_command_line("code --wait \"my file\""), vec!["code".to_string(), "--wait".to_string(), "my file".to_string()]);
}

#[test]
fn numbered_paths_count_up() {
    assert_eq!(NotesService::numbered_path("/n/Doe2024.md", 2), "/n/Doe2024-2.md");
}

#[test]
fn join_with_separator_joins_the_author_list() {
    assert_eq!(content_for("Authors: {authors:join( and )}", &sample_entry()), "Authors: Doe, Jane and John Smith");
}

#[test]
fn note_names_cannot_leave_the_notes_directory() {
    let mut entry = sample_entry();
    entry.set_field("title", "../../etc/passwd");
    for pattern in ["{title}.md", "../{title}", "/abs/{citekey}", ".hidden", "-rf"] {
        let path = service("/notes", pattern, None).note_path_at(&entry, fixed_time());
        let name = path.strip_prefix("/notes/").expect("note stays in the notes directory");
        assert!(!name.is_empty());
        assert!(!name.starts_with('-') && !name.starts_with('.'), "{name}");
        assert!(name.chars().all(|c| c.is_ascii_alphanumeric() || "-_.@".contains(c)), "{name}");
    }
}
