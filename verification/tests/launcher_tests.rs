use bibr::config::Config;
use bibr::domain::fields::FieldMap;
use bibr::domain::{Entry, EntryId, Provenance};
use bibr::infra::clipboard::{Action, ClipboardService};
use bibr::infra::launcher::{jump_arguments, split_command, EditorLauncher, PdfLauncher, Platform};
use bibr::infra::watcher::Debouncer;

fn config() -> Config {
    Config::with_environment(None, "notes".to_string())
}

fn pdf_entry(citekey: &str, bib_path: &str) -> Entry {
    Entry {
        id: EntryId::from(citekey),
        entry_type: "article".to_string(),
        fields: FieldMap::new(),
        provenance: Provenance { file_path: bib_path.to_string(), line_start: 1, line_end: 1, byte_start: 0, byte_end: 1 },
    }
}

#[test]
fn split_command_preserves_quoted_arguments() {
    let (program, args) = split_command("code --profile 'Work Profile'").unwrap();
    assert_eq!(program, "code");
    assert_eq!(args, vec!["--profile".to_string(), "Work Profile".to_string()]);
}

#[test]
fn split_command_rejects_empty_and_unclosed() {
    assert!(split_command("   ").is_err());
    assert!(split_command("code 'open").is_err());
}

#[test]
fn jump_arguments_support_known_editors() {
    let path = "/tmp/library.bib";
    assert_eq!(jump_arguments("emacs", path, 42), vec!["+42:1".to_string(), path.to_string()]);
    assert_eq!(
        jump_arguments("mate", path, 42),
        vec!["-w".to_string(), "-l".to_string(), "42".to_string(), path.to_string()]
    );
}

#[test]
fn jump_arguments_for_vscode_and_terminal_editors() {
    assert_eq!(
        jump_arguments("code", "/tmp/library.bib", 1),
        vec!["--goto".to_string(), "/tmp/library.bib:1:1".to_string(), "--wait".to_string()]
    );
    assert_eq!(jump_arguments("nvim", "/tmp/library.bib", 2), vec!["+2".to_string(), "/tmp/library.bib".to_string()]);
}

#[test]
fn get_editor_prefers_config_then_environment_then_default() {
    let mut config = config();
    config.editor = Some("nvim".to_string());
    assert_eq!(EditorLauncher::get_editor(&config, None), "nvim");

    config.editor = None;
    assert_eq!(EditorLauncher::get_editor(&config, Some("hx")), "hx");
    assert_eq!(EditorLauncher::get_editor(&config, None), "vi");
}

#[test]
fn get_reader_prefers_configured_reader() {
    let mut config = config();
    config.pdf_reader = Some("zathura --fork".to_string());

    assert_eq!(PdfLauncher::get_reader(&config, Platform::OtherUnix).as_deref(), Some("zathura --fork"));
}

#[test]
fn reader_falls_back_to_first_opener_found() {
    let config = config();
    assert_eq!(PdfLauncher::reader_from(&config, Platform::OtherUnix, &[false, true, true, false]).as_deref(), Some("gio"));
    assert_eq!(PdfLauncher::reader_from(&config, Platform::OtherUnix, &[false, false, false, false]), None);
}

#[test]
fn find_pdf_prefers_file_field() {
    let mut entry = pdf_entry("paper", "/data/library.bib");
    entry.fields.insert("file".to_string(), "files/paper.pdf".to_string());
    let candidates = PdfLauncher::pdf_candidates(&entry, None);
    assert_eq!(candidates[0], "/data/files/paper.pdf");
    let exists: Vec<bool> = candidates.iter().map(|c| c == "/data/files/paper.pdf").collect();
    assert_eq!(PdfLauncher::find_pdf(&entry, None, &exists).as_deref(), Some("/data/files/paper.pdf"));
}

#[test]
fn find_pdf_falls_back_to_sibling_pdf() {
    let entry = pdf_entry("paper", "/data/library.bib");
    let candidates = PdfLauncher::pdf_candidates(&entry, None);
    assert_eq!(candidates, vec!["/data/paper.pdf".to_string()]);
    assert_eq!(PdfLauncher::find_pdf(&entry, None, &[true]).as_deref(), Some("/data/paper.pdf"));
}

#[test]
fn find_pdf_uses_configured_pdf_directory() {
    let entry = pdf_entry("paper", "/data/library.bib");
    let candidates = PdfLauncher::pdf_candidates(&entry, Some("/data/pdfs"));
    assert_eq!(candidates, vec!["/data/paper.pdf".to_string(), "/data/pdfs/paper.pdf".to_string()]);
    assert_eq!(PdfLauncher::find_pdf(&entry, Some("/data/pdfs"), &[false, true]).as_deref(), Some("/data/pdfs/paper.pdf"));
    assert_eq!(PdfLauncher::find_pdf(&entry, Some("/data/pdfs"), &[false, false]), None);
}

#[test]
fn copy_citekey_returns_action_for_auto_close() {
    let (quit_text, quit_action) = ClipboardService::copy_citekey(&pdf_entry("knuth1984", "library.bib"), true);
    let (continue_text, continue_action) = ClipboardService::copy_citekey(&pdf_entry("lamport1994", "library.bib"), false);

    assert_eq!(quit_action, Action::Quit);
    assert_eq!(continue_action, Action::Continue);
    assert_eq!(quit_text, "knuth1984");
    assert_eq!(continue_text, "lamport1994");
}

#[test]
fn debounce_coalesces_rapid_changes_for_same_path() {
    let mut debouncer = Debouncer::new();
    debouncer.record("library.bib".to_string(), 0);
    debouncer.record("library.bib".to_string(), 10);
    debouncer.record("library.bib".to_string(), 20);

    assert_eq!(debouncer.take_all(), vec!["library.bib".to_string()]);
    assert!(debouncer.is_empty());
}

#[test]
fn debounce_delivers_distinct_paths() {
    let mut debouncer = Debouncer::new();
    debouncer.record("alpha.bib".to_string(), 0);
    debouncer.record("beta.bib".to_string(), 5);

    let mut seen = debouncer.take_all();
    seen.sort();
    assert_eq!(seen, vec!["alpha.bib".to_string(), "beta.bib".to_string()]);
}

#[test]
fn debounce_waits_for_quiet_period() {
    let mut debouncer = Debouncer::new();
    debouncer.record("alpha.bib".to_string(), 100);
    debouncer.record("beta.bib".to_string(), 150);
    assert_eq!(debouncer.next_deadline(), Some(300));
    assert!(debouncer.take_ready(299).is_empty());
    debouncer.record("alpha.bib".to_string(), 250);
    assert_eq!(debouncer.take_ready(350), vec!["beta.bib".to_string()]);
    assert_eq!(debouncer.next_deadline(), Some(450));
    assert_eq!(debouncer.take_ready(450), vec!["alpha.bib".to_string()]);
    assert!(debouncer.is_empty());
    assert_eq!(debouncer.next_deadline(), None);
}

#[test]
fn debounce_deadline_saturates() {
    let mut debouncer = Debouncer::new();
    debouncer.record("late.bib".to_string(), u64::MAX - 5);
    assert_eq!(debouncer.next_deadline(), Some(u64::MAX));
}

#[test]
fn empty_quotes_and_blank_runs_make_no_word() {
    let (program, args) = split_command("  vim   ''  \"\"  +12  ").unwrap();
    assert_eq!(program, "vim");
    assert_eq!(args, vec!["+12".to_string()]);
    assert_eq!(split_command(" '' ").unwrap_err(), "command is empty");
}

#[test]
fn every_pdf_candidate_is_a_pdf() {
    let mut entry = pdf_entry("knuth1984", "/lib/refs.bib");
    entry.set_field("file", "Full Text:papers/Knuth.PDF:application/pdf;notes.txt;/abs/other.pdf");
    let candidates = PdfLauncher::pdf_candidates(&entry, Some("/pdfs"));
    assert!(!candidates.is_empty());
    for c in &candidates {
        assert!(c.to_ascii_lowercase().ends_with(".pdf"), "{c}");
    }
    assert_eq!(candidates.last().unwrap(), "/pdfs/knuth1984.pdf");
}

#[test]
fn macos_and_windows_have_their_own_readers() {
    let config = config();
    assert_eq!(PdfLauncher::get_reader(&config, Platform::MacOs).as_deref(), Some("open"));
    assert_eq!(PdfLauncher::get_reader(&config, Platform::Windows).as_deref(), Some("cmd /C start"));
    assert_eq!(PdfLauncher::reader_from(&config, Platform::MacOs, &[true, false, false, false]).as_deref(), Some("open"));
    let mut configured = config.clone();
    configured.pdf_reader = Some("  zathura ".to_string());
    assert_eq!(PdfLauncher::get_reader(&configured, Platform::Windows).as_deref(), Some("zathura"));
}

#[test]
fn windows_start_gets_an_empty_title() {
    let args = vec!["/C".to_string(), "start".to_string()];
    assert_eq!(
        PdfLauncher::reader_arguments("cmd", args.clone(), Platform::Windows, "a.pdf"),
        vec!["/C".to_string(), "start".to_string(), String::new(), "a.pdf".to_string()]
    );
    assert_eq!(
        PdfLauncher::reader_arguments("CMD", vec!["/c".to_string(), "START".to_string()], Platform::Windows, "a.pdf").len(),
        4
    );
    assert_eq!(
        PdfLauncher::reader_arguments("cmd", args, Platform::OtherUnix, "a.pdf"),
        vec!["/C".to_string(), "start".to_string(), "a.pdf".to_string()]
    );
    assert_eq!(PdfLauncher::reader_arguments("zathura", vec![], Platform::Windows, "b.pdf"), vec!["b.pdf".to_string()]);
}
