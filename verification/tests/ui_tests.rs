use bibr::config::{Config, PreviewPattern};
use bibr::domain::fields::FieldMap;
use bibr::domain::{Bibliography, Entry, EntryId, Provenance};
use bibr::ui::actions::{pdf_target_candidates, pdf_target_for};
use bibr::ui::app::TuiApp;
use bibr::ui::text::{format_preview_content, format_preview_with_template, key_binding_name, pad_to_display_width, truncate_with_ellipsis};
use bibr::ui::widgets::{
    color_from_name, highlight_parts, list_rows, list_title, ListRows, preview_line_parts, search_bar_parts, selected_style,
    status_line_parts, BarPart, ColorName, StatusPart,
};
use bibr::ui::{ActionRequest, Key, KeyCode, Mode, Mouse, MouseKind, SortField, TuiEffect};

fn sample_entry(id: &str, author: &str, title: &str, year: &str, journal: &str) -> Entry {
    Entry {
        id: EntryId::from(id),
        entry_type: "article".to_string(),
        fields: FieldMap::from_pairs(vec![
            ("author".to_string(), author.to_string()),
            ("title".to_string(), title.to_string()),
            ("year".to_string(), year.to_string()),
            ("journal".to_string(), journal.to_string()),
        ]),
        provenance: Provenance { file_path: "library.bib".to_string(), line_start: 1, line_end: 1, byte_start: 0, byte_end: 0 },
    }
}

fn sample_config() -> Config {
    let mut config = Config::with_environment(None, "notes".to_string());
    config.display.format = "{author} - {title} ({citekey})".to_string();
    config
}

fn sample_app() -> TuiApp {
    let mut bib = Bibliography::new();
    bib.add_entry(sample_entry("knuth1984", "Knuth", "Literate Programming", "1984", "The Computer Journal")).unwrap();
    bib.add_entry(sample_entry("hopper1952", "Hopper", "Compiler Design", "1952", "ACM Journal")).unwrap();
    bib.add_entry(sample_entry("turing1936", "Turing", "Computable Numbers", "1936", "Proceedings")).unwrap();
    TuiApp::new(bib, sample_config())
}

fn key(c: char) -> Key {
    Key { code: KeyCode::Char(c), ctrl: false }
}

fn ctrl(c: char) -> Key {
    Key { code: KeyCode::Char(c), ctrl: true }
}

fn code(code: KeyCode) -> Key {
    Key { code, ctrl: false }
}

fn ids(app: &TuiApp) -> Vec<String> {
    app.filtered().iter().map(|id| id.0.clone()).collect()
}

/// Presses `k` and plays the action handler's part: each request is
/// recorded and answered.
fn press(app: &mut TuiApp, k: Key, calls: &mut Vec<String>) -> TuiEffect {
    let effect = app.handle_key_event(k);
    match app.take_request() {
        Some(ActionRequest::OpenPdf(id)) => {
            calls.push(format!("pdf:{}", id.0));
            app.finish_request("pdf".to_string());
        }
        Some(ActionRequest::CopyCitekey(id)) => {
            calls.push(format!("copy:{}", id.0));
            app.finish_request("copied".to_string());
        }
        None => {}
    }
    effect
}

#[test]
fn search_updates_results_as_user_types() {
    let mut app = sample_app();
    app.handle_key_event(key('/'));
    for ch in "compiler".chars() {
        app.handle_key_event(key(ch));
    }
    assert_eq!(app.mode(), Mode::Searching);
    assert_eq!(app.search_query(), "compiler");
    assert_eq!(ids(&app), vec!["hopper1952"]);
}

#[test]
fn navigation_supports_vim_and_jump_keys() {
    let mut app = sample_app();
    app.set_list_height(2);

    app.handle_key_event(key('j'));
    assert_eq!(app.selected_entry_id(), Some(&EntryId::from("knuth1984")));

    app.handle_key_event(key('G'));
    assert_eq!(app.selected_entry_id(), Some(&EntryId::from("turing1936")));

    app.handle_key_event(key('g'));
    app.handle_key_event(key('g'));
    assert_eq!(app.selected_entry_id(), Some(&EntryId::from("hopper1952")));
}

#[test]
fn ctrl_keys_page_through_results() {
    let mut app = sample_app();
    app.set_list_height(2);

    app.handle_key_event(ctrl('d'));
    assert_eq!(app.selected_entry_id(), Some(&EntryId::from("knuth1984")));

    app.handle_key_event(ctrl('u'));
    assert_eq!(app.selected_entry_id(), Some(&EntryId::from("hopper1952")));
}

#[test]
fn sort_mode_reorders_entries() {
    let mut app = sample_app();
    app.handle_key_event(key('s'));
    app.handle_key_event(key('y'));

    assert_eq!(app.sort_field(), Some(SortField::Year));
    assert_eq!(app.filtered().first(), Some(&EntryId::from("knuth1984")));
    assert_eq!(app.filtered().last(), Some(&EntryId::from("turing1936")));
    assert_eq!(app.status_message(), "Sorted by year");
}

#[test]
fn actions_delegate_to_handler() {
    let mut app = sample_app();
    let mut calls = Vec::new();
    press(&mut app, key('p'), &mut calls);
    press(&mut app, key('y'), &mut calls);
    assert_eq!(calls, vec!["pdf:hopper1952".to_string(), "copy:hopper1952".to_string()]);
    assert_eq!(app.status_message(), "copied");
}

#[test]
fn edit_and_note_return_effects() {
    let mut app = sample_app();
    let effect = app.handle_key_event(key('e'));
    assert!(matches!(effect, TuiEffect::EditEntry(_)));
    let effect = app.handle_key_event(key('n'));
    assert!(matches!(effect, TuiEffect::OpenNote(_)));
}

#[test]
fn format_uses_display_template() {
    let app = sample_app();
    let entry = app.get_bibliography().get(&EntryId::from("knuth1984")).unwrap();
    let formatted = app.format_entry_line(entry, 100, false);
    assert!(formatted.contains("knuth1984"));
    assert!(formatted.contains("Knuth"));
    assert!(formatted.contains("Literate"));
    assert!(formatted.starts_with(' ') || formatted.starts_with('\u{2713}'));
}

#[test]
fn list_line_has_fixed_columns() {
    let app = sample_app();
    let entry = app.get_bibliography().get(&EntryId::from("knuth1984")).unwrap();
    let expected = format!("\u{2713} {:<15} {:<20} {}", "knuth1984", "Knuth", "Literate Program\u{2026}");
    assert_eq!(app.format_entry_line(entry, 60, true), expected);
}

#[test]
fn typing_then_backspace_restores_query_and_list() {
    let mut app = sample_app();
    app.handle_key_event(key('/'));
    app.handle_key_event(key('t'));
    app.handle_key_event(key('u'));
    let before = ids(&app);
    app.handle_key_event(key('r'));
    app.handle_key_event(code(KeyCode::Backspace));
    assert_eq!(app.search_query(), "tu");
    assert_eq!(app.cursor_position(), 2);
    assert_eq!(ids(&app), before);
}

#[test]
fn search_line_editing_moves_the_cursor() {
    let mut app = sample_app();
    app.handle_key_event(key('/'));
    for ch in "abc".chars() {
        app.handle_key_event(key(ch));
    }
    app.handle_key_event(code(KeyCode::Left));
    app.handle_key_event(code(KeyCode::Left));
    app.handle_key_event(key('x'));
    assert_eq!(app.search_query(), "axbc");
    app.handle_key_event(code(KeyCode::Delete));
    assert_eq!(app.search_query(), "axc");
    app.handle_key_event(code(KeyCode::Home));
    assert_eq!(app.cursor_position(), 0);
    app.handle_key_event(code(KeyCode::End));
    assert_eq!(app.cursor_position(), 3);
    app.handle_key_event(ctrl('u'));
    assert_eq!(app.search_query(), "");
    assert_eq!(ids(&app).len(), 3);
    app.handle_key_event(code(KeyCode::Esc));
    assert_eq!(app.mode(), Mode::Normal);
    assert_eq!(app.status_message(), "Search cleared");
}

#[test]
fn leaving_search_reports_the_number_of_results() {
    let mut app = sample_app();
    app.handle_key_event(key('/'));
    app.handle_key_event(key('k'));
    app.handle_key_event(key('n'));
    app.handle_key_event(key('u'));
    app.handle_key_event(code(KeyCode::Enter));
    assert_eq!(app.status_message(), "1 result(s)");
}

#[test]
fn selection_follows_its_entry_when_the_list_changes() {
    let mut app = sample_app();
    app.handle_key_event(key('j'));
    assert_eq!(app.selected_entry_id(), Some(&EntryId::from("knuth1984")));
    app.handle_key_event(key('s'));
    app.handle_key_event(key('y'));
    assert_eq!(app.selected_entry_id(), Some(&EntryId::from("knuth1984")));
    assert_eq!(app.selected(), 0);
}

#[test]
fn sort_mode_escape_cancels() {
    let mut app = sample_app();
    app.handle_key_event(key('s'));
    app.handle_key_event(code(KeyCode::Esc));
    assert_eq!(app.mode(), Mode::Normal);
    assert_eq!(app.sort_field(), None);
    assert_eq!(app.status_message(), "Sort cancelled");
}

#[test]
fn quit_and_select_effects() {
    let mut app = sample_app();
    assert_eq!(app.handle_key_event(code(KeyCode::Enter)), TuiEffect::Select(EntryId::from("hopper1952")));
    assert_eq!(app.handle_key_event(key('q')), TuiEffect::Quit);
}

#[test]
fn preview_key_cycles_through_patterns_and_off() {
    let mut config = sample_config();
    config.preview.patterns = vec![
        PreviewPattern { name: Some("A".to_string()), template: "{title}".to_string() },
        PreviewPattern { name: None, template: "{year}".to_string() },
    ];
    let mut bib = Bibliography::new();
    bib.add_entry(sample_entry("knuth1984", "Knuth", "Literate Programming", "1984", "J")).unwrap();
    let mut app = TuiApp::new(bib, config);
    app.handle_key_event(key('i'));
    assert_eq!(app.show_preview(), Some(0));
    assert_eq!(app.status_message(), "A 1/2");
    assert_eq!(app.preview_content().as_deref(), Some("\u{1e}Literate Programming\u{1f}"));
    app.handle_key_event(key('i'));
    assert_eq!(app.status_message(), "Preview 2/2");
    app.handle_key_event(key('i'));
    assert_eq!(app.show_preview(), None);
    assert_eq!(app.status_message(), "Preview off");
}

#[test]
fn mouse_wheel_and_click_move_the_selection() {
    let mut app = sample_app();
    app.handle_mouse_event(Mouse { kind: MouseKind::ScrollDown, row: 0 });
    assert_eq!(app.selected(), 2);
    app.handle_mouse_event(Mouse { kind: MouseKind::ScrollUp, row: 0 });
    assert_eq!(app.selected(), 0);
    app.handle_mouse_event(Mouse { kind: MouseKind::LeftDown, row: 2 });
    assert_eq!(app.selected(), 1);
    app.handle_mouse_event(Mouse { kind: MouseKind::LeftDown, row: 9 });
    assert_eq!(app.selected(), 1);
}

#[test]
fn layout_keeps_the_selection_in_view() {
    let mut app = sample_app();
    app.layout(4);
    app.handle_key_event(key('G'));
    app.layout(4);
    let shown = app.visible_entry_ids(8).to_vec();
    assert_eq!(shown, vec![EntryId::from("knuth1984"), EntryId::from("turing1936")]);
    assert_eq!(app.relative_selected(), Some(1));
}

#[test]
fn status_line_and_mode_label() {
    let mut app = sample_app();
    assert!(app.status_line().starts_with("Ready | i preview | / search"));
    assert_eq!(app.mode_label(), "normal");
    app.handle_key_event(key('/'));
    assert_eq!(app.mode_label(), "search");
    assert_eq!(app.status_line(), "type to filter | @field: scoped | backspace delete | ctrl+u clear | enter/esc close");
}

#[test]
fn active_filters_list_scoped_fields_once() {
    let mut app = sample_app();
    app.handle_key_event(key('/'));
    for ch in "@author: k @year: 1 @author: x".chars() {
        app.handle_key_event(key(ch));
    }
    assert_eq!(app.active_filters(), vec!["author".to_string(), "year".to_string()]);
}

#[test]
fn placeholder_values_have_defaults() {
    let app = sample_app();
    let mut entry = sample_entry("x", "", "", "2000", "J");
    entry.set_field("title", "");
    assert_eq!(app.placeholder_value(&entry, "author"), "Unknown author");
    assert_eq!(app.placeholder_value(&entry, "title"), "Untitled");
    assert_eq!(app.placeholder_value(&entry, "citekey"), "x");
    assert_eq!(app.placeholder_value(&entry, "journal"), "J");
    assert_eq!(app.placeholder_value(&entry, "volume"), "");
}

#[test]
fn key_names_for_bindings() {
    assert_eq!(key_binding_name(key('x')), "x");
    assert_eq!(key_binding_name(ctrl('D')), "ctrl+d");
    assert_eq!(key_binding_name(code(KeyCode::Up)), "<Up>");
    assert_eq!(key_binding_name(code(KeyCode::Backspace)), "");
}

#[test]
fn text_is_cut_and_padded_by_columns() {
    assert_eq!(truncate_with_ellipsis("short", 10), "short");
    assert_eq!(truncate_with_ellipsis("abcdefghij", 5), "abcd\u{2026}");
    assert_eq!(truncate_with_ellipsis("\u{4e2d}\u{6587}\u{5b57}", 4), "\u{4e2d}\u{2026}");
    assert_eq!(truncate_with_ellipsis("abc", 1), "\u{2026}");
    assert_eq!(pad_to_display_width("ab", 4), "ab  ");
    assert_eq!(pad_to_display_width("\u{4e2d}", 4), "\u{4e2d}  ");
}

#[test]
fn preview_falls_back_to_plain_content() {
    let entry = sample_entry("k", "Knuth", "TAOCP", "1968", "");
    assert_eq!(format_preview_content(&entry), "Citekey: k\nType: article\n\nTitle: TAOCP\nAuthor(s): Knuth\nYear: 1968\nJournal: ");
    assert_eq!(format_preview_with_template(&entry, &[], 3), format_preview_content(&entry));
}

#[test]
fn pdf_target_prefers_existing_or_pdf_named_candidates() {
    let mut entry = sample_entry("k", "Knuth", "T", "1968", "J");
    entry.provenance.file_path = "/lib/refs.bib".to_string();
    entry.fields.insert("file".to_string(), "docs/a.djvu; b.pdf".to_string());
    entry.fields.insert("url".to_string(), "https://example.org".to_string());
    let candidates = pdf_target_candidates(&entry);
    assert_eq!(candidates, vec!["/lib/docs/a.djvu".to_string(), "/lib/b.pdf".to_string()]);
    assert_eq!(pdf_target_for(&entry, &[false, false]).unwrap(), "/lib/b.pdf");
    assert_eq!(pdf_target_for(&entry, &[true, false]).unwrap(), "/lib/docs/a.djvu");
    let bare = sample_entry("z", "Z", "T", "1", "J");
    assert_eq!(pdf_target_for(&bare, &[]).unwrap_err(), "No PDF path found for z");
}

#[test]
fn colours_and_selected_style() {
    assert_eq!(color_from_name("light_blue"), ColorName::LightBlue);
    assert_eq!(color_from_name("#112233"), ColorName::Reset);
    let reversed = selected_style("nope", "none");
    assert!(reversed.reversed && reversed.bold && reversed.fg.is_none());
    let coloured = selected_style("white", "nope");
    assert_eq!(coloured.fg, Some(ColorName::White));
    assert_eq!(coloured.bg, None);
    assert!(!coloured.reversed);
}

#[test]
fn renders_entry_list_with_selection() {
    assert_eq!(list_title(Some(1), 0, 2), "Entries (2/2)");
    assert_eq!(list_title(None, 0, 0), "Entries (0/0)");
}

#[test]
fn renders_status_bar_in_normal_mode() {
    let parts = status_line_parts("/ search | e edit");
    let texts: Vec<(String, StatusPart)> = parts;
    assert_eq!(
        texts,
        vec![
            ("/".to_string(), StatusPart::Key),
            (" search".to_string(), StatusPart::Desc),
            (" | ".to_string(), StatusPart::Plain),
            ("e".to_string(), StatusPart::Key),
            (" edit".to_string(), StatusPart::Desc),
        ]
    );
}

#[test]
fn renders_status_bar_in_search_mode() {
    let parts = search_bar_parts("drought", Some(3));
    assert_eq!(
        parts,
        vec![
            ("/".to_string(), BarPart::Prompt),
            (" ".to_string(), BarPart::Gap),
            ("dro".to_string(), BarPart::Text),
            ("u".to_string(), BarPart::Cursor),
            ("ght".to_string(), BarPart::Text),
        ]
    );
    assert_eq!(search_bar_parts("", Some(0))[2], ("search...".to_string(), BarPart::Placeholder));
}

#[test]
fn matches_are_highlighted_ignoring_case() {
    assert_eq!(
        highlight_parts("Knuth knuth", "KNU"),
        vec![
            ("Knu".to_string(), true),
            ("th ".to_string(), false),
            ("knu".to_string(), true),
            ("th".to_string(), false),
        ]
    );
}

#[test]
fn preview_lines_split_labels_and_values() {
    assert_eq!(
        preview_line_parts("Title: \u{1e}Alpha\u{1f} end"),
        vec![("Title: ".to_string(), false), ("Alpha".to_string(), true), (" end".to_string(), false)]
    );
}

#[test]
fn shift_y_copies_the_citekey_and_quits() {
    let mut app = sample_app();
    let mut calls = Vec::new();
    let effect = press(&mut app, key('Y'), &mut calls);
    assert_eq!(effect, TuiEffect::Quit);
    assert_eq!(calls, vec!["copy:hopper1952".to_string()]);
}

#[test]
fn shift_y_with_an_empty_list_stays() {
    let mut app = TuiApp::new(Bibliography::new(), sample_config());
    let mut calls = Vec::new();
    let effect = press(&mut app, key('Y'), &mut calls);
    assert_eq!(effect, TuiEffect::Continue);
    assert!(calls.is_empty());
    assert!(app.status_message().starts_with("No entry selected"));
}

#[test]
fn keys_leave_settings_and_bibliography_alone() {
    let mut app = sample_app();
    let mouse = app.config().mouse_enabled;
    let bindings = app.config().keybindings.clone();
    for k in [key('j'), key('/'), key('x'), code(KeyCode::Esc), key('s'), key('y'), key('Y')] {
        app.handle_key_event(k);
    }
    assert_eq!(app.config().mouse_enabled, mouse);
    assert_eq!(app.config().keybindings, bindings);
    assert_eq!(app.get_bibliography().len(), 3);
}

#[test]
fn list_rows_share_the_height_with_the_preview() {
    assert_eq!(list_rows(10, 3, false, 8, Some(1)), ListRows { preview_rows: 0, shown: 3, preview_after: None });
    assert_eq!(list_rows(10, 5, true, 8, Some(1)), ListRows { preview_rows: 8, shown: 2, preview_after: Some(1) });
    assert_eq!(list_rows(10, 5, true, 8, Some(2)), ListRows { preview_rows: 8, shown: 2, preview_after: None });
    assert_eq!(list_rows(4, 5, true, 8, Some(0)), ListRows { preview_rows: 8, shown: 0, preview_after: None });
    assert_eq!(list_rows(10, 5, true, 0, Some(0)), ListRows { preview_rows: 0, shown: 5, preview_after: None });
}
