use bibr::config::validate::{validate_theme_color, PathFacts};
use bibr::config::{
    default_keybindings, editor_from_env, Config, NotesConfig, PartialConfig, PartialNotesConfig,
    PartialSearchConfig, PartialDisplayConfig, PartialPreviewConfig, PartialThemeConfig,
    PreviewPattern, DEFAULT_FORMAT, DOWN, QUIT, SORT_AUTHOR, SORT_YEAR, UP,
};
use bibr::config::paths::{default_notes_dir, expand_tilde, resolve_relative_path};

fn key(config: &Config, name: &str) -> Option<String> {
    config.keybindings.get(&name.to_string()).cloned()
}

fn file() -> PathFacts {
    PathFacts { exists: true, is_file: true, is_dir: false }
}

fn dir() -> PathFacts {
    PathFacts { exists: true, is_file: false, is_dir: true }
}

fn missing() -> PathFacts {
    PathFacts { exists: false, is_file: false, is_dir: false }
}

#[test]
fn default_config_creation() {
    let config = Config::with_environment(None, default_notes_dir());

    assert!(config.search.smart_case);
    assert!(config.search.fuzzy);
    assert!(config.search.search_all_fields);
    assert_eq!(config.display.format, DEFAULT_FORMAT);
    assert_eq!(key(&config, UP).as_deref(), Some("k"));
    assert_eq!(key(&config, DOWN).as_deref(), Some("j"));
    assert_eq!(config.notes.filename_pattern, "{citekey}.md");
    assert_eq!(config.notes.notes_dir, default_notes_dir());
}

#[test]
fn loading_from_toml_string() {
    let temp = tempfile::tempdir().expect("tempdir should exist");
    let bib_file = temp.path().join("library.bib").display().to_string();
    let notes_dir = temp.path().join("notes").display().to_string();
    let template_file = temp.path().join("template.md").display().to_string();

    let mut config = Config::with_environment(None, default_notes_dir());
    config.merge_partial(PartialConfig {
        bibtex_files: Some(vec![bib_file.clone()]),
        editor: Some(Some("nvim".to_string())),
        pdf_reader: Some(Some("zathura".to_string())),
        search: Some(PartialSearchConfig {
            smart_case: Some(false),
            fuzzy: Some(false),
            search_all_fields: Some(true),
        }),
        display: Some(PartialDisplayConfig { format: Some("{title} - {citekey}".to_string()) }),
        keybindings: Some(vec![
            ("up".to_string(), "K".to_string()),
            ("down".to_string(), "J".to_string()),
            ("sort_year".to_string(), "Y".to_string()),
            ("sort_author".to_string(), "A".to_string()),
        ]),
        theme: Some(PartialThemeConfig {
            selected_fg: Some("black".to_string()),
            selected_bg: Some("green".to_string()),
            highlight_fg: Some("red".to_string()),
            ..PartialThemeConfig::default()
        }),
        notes: Some(PartialNotesConfig {
            notes_dir: Some(notes_dir.clone()),
            filename_pattern: Some("notes-{citekey}.md".to_string()),
            template_file: Some(Some(template_file.clone())),
            ..PartialNotesConfig::default()
        }),
        ..PartialConfig::default()
    });
    config.validate(&[file()], dir(), Some(file())).expect("config should validate");

    assert_eq!(config.bibtex_files, vec![bib_file]);
    assert!(!config.search.smart_case);
    assert!(!config.search.fuzzy);
    assert_eq!(config.display.format, "{title} - {citekey}");
    assert_eq!(key(&config, UP).as_deref(), Some("K"));
    assert_eq!(key(&config, SORT_YEAR).as_deref(), Some("Y"));
    assert_eq!(key(&config, SORT_AUTHOR).as_deref(), Some("A"));
    assert_eq!(config.theme.selected_bg, "green");
    assert_eq!(config.editor.as_deref(), Some("nvim"));
    assert_eq!(config.pdf_reader.as_deref(), Some("zathura"));
    assert_eq!(config.notes.filename_pattern, "notes-{citekey}.md");
    assert_eq!(config.notes.template_file, Some(template_file));
}

#[test]
fn validation_of_invalid_paths() {
    let temp = tempfile::tempdir().expect("tempdir should exist");
    let missing_bib = temp.path().join("missing.bib").display().to_string();
    let notes_dir = temp.path().join("notes").display().to_string();

    let mut config = Config::with_environment(None, notes_dir);
    config.bibtex_files = vec![missing_bib.clone()];

    let error = config
        .validate(&[missing()], dir(), None)
        .expect_err("missing bib file should fail validation");
    assert!(error.contains(&missing_bib), "unexpected error: {error}");
}

#[test]
fn keybinding_parsing() {
    let mut config = Config::with_environment(None, default_notes_dir());
    config.merge_partial(PartialConfig {
        keybindings: Some(vec![
            ("up".to_string(), "<Up>".to_string()),
            ("down".to_string(), "<Down>".to_string()),
            ("quit".to_string(), "ZZ".to_string()),
            ("sort_year".to_string(), "Y".to_string()),
            ("sort_author".to_string(), "A".to_string()),
        ]),
        ..PartialConfig::default()
    });

    assert_eq!(key(&config, UP).as_deref(), Some("<Up>"));
    assert_eq!(key(&config, DOWN).as_deref(), Some("<Down>"));
    assert_eq!(key(&config, QUIT).as_deref(), Some("ZZ"));
    assert_eq!(key(&config, SORT_YEAR).as_deref(), Some("Y"));
    assert_eq!(key(&config, SORT_AUTHOR).as_deref(), Some("A"));
}

#[test]
fn parameterized_preview_keybindings_require_quoted_toml_keys() {
    let temp = tempfile::tempdir().expect("temp dir should be created");
    let notes_dir = temp.path().join("notes").display().to_string();

    let mut config = Config::with_environment(None, default_notes_dir());
    config.merge_partial(PartialConfig {
        bibtex_files: Some(vec![]),
        preview: Some(PartialPreviewConfig {
            patterns: Some(vec![
                PreviewPattern { name: Some("A".to_string()), template: "Title: {title}".to_string() },
                PreviewPattern { name: Some("B".to_string()), template: "Abstract: {abstract}".to_string() },
                PreviewPattern { name: Some("C".to_string()), template: "Year: {year}".to_string() },
            ]),
        }),
        notes: Some(PartialNotesConfig { notes_dir: Some(notes_dir), ..PartialNotesConfig::default() }),
        keybindings: Some(vec![
            ("preview".to_string(), "i".to_string()),
            ("preview[0]".to_string(), "1".to_string()),
            ("preview[1,2]".to_string(), "2".to_string()),
        ]),
        ..PartialConfig::default()
    });
    config
        .validate(&[], dir(), None)
        .expect("config with in-range preview params should validate");
    assert_eq!(key(&config, "preview[0]").as_deref(), Some("1"));
    assert_eq!(key(&config, "preview[1,2]").as_deref(), Some("2"));
}

#[test]
fn theme_color_validation_accepts_hex_rgb() {
    validate_theme_color("theme.selected_bg", "#1A2B3C").expect("#RRGGBB theme colors should validate");
}

#[test]
fn theme_color_validation_rejects_invalid_hex() {
    let error = validate_theme_color("theme.selected_bg", "#12GG99")
        .expect_err("invalid hex should fail validation");
    assert!(error.contains("or a hex color like #RRGGBB"), "unexpected error: {error}");
}

#[test]
fn preview_range_out_of_bounds_is_rejected() {
    let mut config = Config::with_environment(None, default_notes_dir());
    config.merge_partial(PartialConfig {
        keybindings: Some(vec![("preview[0,5]".to_string(), "2".to_string())]),
        ..PartialConfig::default()
    });
    let error = config.validate(&[], dir(), None).expect_err("range beyond the patterns");
    assert_eq!(error, "Preview end index 5 out of bounds (max: 1)");
}

#[test]
fn unknown_keybinding_action_is_rejected() {
    let mut config = Config::with_environment(None, default_notes_dir());
    config.merge_partial(PartialConfig {
        keybindings: Some(vec![("jump".to_string(), "x".to_string())]),
        ..PartialConfig::default()
    });
    let error = config.validate(&[], dir(), None).expect_err("unknown action");
    assert_eq!(error, "Unknown keybinding action 'jump' in config");
}

#[test]
fn notes_dir_given_twice_prefers_notes_dir() {
    let mut notes = NotesConfig::with_dir("base".to_string());
    notes.merge_partial(PartialNotesConfig {
        dir: Some("old".to_string()),
        notes_dir: Some("new".to_string()),
        ..PartialNotesConfig::default()
    });
    assert_eq!(notes.notes_dir, "new");
}

#[test]
fn overriding_keeps_unset_values() {
    let mut config = Config::with_environment(Some("vim".to_string()), "notes".to_string());
    config.merge_partial(PartialConfig::default());
    assert_eq!(config.editor.as_deref(), Some("vim"));
    assert_eq!(config.keybindings.to_pairs(), default_keybindings().to_pairs());
}

#[test]
fn editor_variable_is_trimmed_and_blank_ignored() {
    assert_eq!(editor_from_env(Some("  hx  ")).as_deref(), Some("hx"));
    assert_eq!(editor_from_env(Some("   ")), None);
    assert_eq!(editor_from_env(None), None);
}

#[test]
fn paths_expand_home_and_resolve_relative() {
    assert_eq!(expand_tilde("~/refs.bib", Some("/home/ada")), "/home/ada/refs.bib");
    assert_eq!(expand_tilde("~other/refs.bib", Some("/home/ada")), "~other/refs.bib");
    assert_eq!(resolve_relative_path("/etc/bibr", "refs.bib", None), "/etc/bibr/refs.bib");
    assert_eq!(resolve_relative_path("/etc/bibr", "/abs/refs.bib", None), "/abs/refs.bib");
}
