//! The application's settings: their defaults, how a user's partial
//! settings override them, and their validation.
pub mod paths;
pub mod validate;

use vstd::prelude::*;

use crate::domain::fields::{field_insert, keys_unique, pairs_view, FieldMap};
use crate::text::{chars_of, string_of, trim_chars, trim};

verus! {

pub const UP: &'static str = "up";
pub const DOWN: &'static str = "down";
pub const SEARCH: &'static str = "search";
pub const QUIT: &'static str = "quit";
pub const EDIT: &'static str = "edit";
pub const NOTE: &'static str = "note";
pub const PDF: &'static str = "pdf";
pub const COPY: &'static str = "copy";
pub const SORT_YEAR: &'static str = "sort_year";
pub const SORT_AUTHOR: &'static str = "sort_author";
pub const PREVIEW: &'static str = "preview";
pub const PAGE_UP: &'static str = "page_up";
pub const PAGE_DOWN: &'static str = "page_down";
pub const GOTO_TOP: &'static str = "goto_top";
pub const GOTO_BOTTOM: &'static str = "goto_bottom";

/// The entry-list format used when none is configured.
pub const DEFAULT_FORMAT: &'static str = "{citekey:<15} {author:<20} {title}";

/// The settings of the application.
#[derive(Debug, Clone, PartialEq, Eq)]
pub struct Config {
    pub bibtex_files: Vec<String>,
    pub search: SearchConfig,
    pub display: DisplayConfig,
    pub preview: PreviewConfig,
    /// Action name (possibly with parameters, `preview[1,2]`) to key.
    pub keybindings: FieldMap,
    pub theme: ThemeConfig,
    pub editor: Option<String>,
    pub notes: NotesConfig,
    pub pdf_reader: Option<String>,
    pub mouse_enabled: bool,
}

/// How searching matches text.
#[derive(Debug, Clone, PartialEq, Eq)]
pub struct SearchConfig {
    pub smart_case: bool,
    pub fuzzy: bool,
    pub search_all_fields: bool,
}

/// How the entry list is drawn.
#[derive(Debug, Clone, PartialEq, Eq)]
pub struct DisplayConfig {
    pub format: String,
}

/// A named template for the preview pane.
#[derive(Debug, Clone, PartialEq, Eq)]
pub struct PreviewPattern {
    pub name: Option<String>,
    pub template: String,
}

/// The preview templates, cycled through in order.
#[derive(Debug, Clone, PartialEq, Eq)]
pub struct PreviewConfig {
    pub patterns: Vec<PreviewPattern>,
}

/// Where notes are kept and how they are named and started.
#[derive(Debug, Clone, PartialEq, Eq)]
pub struct NotesConfig {
    pub notes_dir: String,
    pub filename_pattern: String,
    pub template_file: Option<String>,
}

/// The colours of the interface; each is a colour name or `#RRGGBB`.
#[derive(Debug, Clone, PartialEq, Eq)]
pub struct ThemeConfig {
    pub selected_fg: String,
    pub selected_bg: String,
    pub highlight_fg: String,
    pub status_bg: String,
    pub status_fg: String,
    pub status_search_bg: String,
    pub status_search_fg: String,
    pub help_key_fg: String,
    pub help_key_bg: String,
    pub help_desc_fg: String,
    pub help_desc_bg: String,
    pub entry_normal_fg: String,
    pub entry_normal_bg: String,
    pub entry_selected_fg: String,
    pub entry_selected_bg: String,
    pub entry_focused_fg: String,
    pub entry_focused_bg: String,
    pub list_title_fg: String,
    pub list_title_bg: String,
    pub list_border_fg: String,
    pub list_border_bg: String,
    pub cursor_bg: String,
    pub search_match_fg: String,
    pub search_match_bg: String,
    pub preview_label_fg: String,
    pub preview_label_bg: String,
    pub preview_value_fg: String,
    pub preview_value_bg: String,
}

/// User overrides of the theme; an absent value keeps the current one.
#[derive(Debug, Clone, Default)]
pub struct PartialThemeConfig {
    pub selected_fg: Option<String>,
    pub selected_bg: Option<String>,
    pub highlight_fg: Option<String>,
    pub status_bg: Option<String>,
    pub status_fg: Option<String>,
    pub status_search_bg: Option<String>,
    pub status_search_fg: Option<String>,
    pub help_key_fg: Option<String>,
    pub help_key_bg: Option<String>,
    pub help_desc_fg: Option<String>,
    pub help_desc_bg: Option<String>,
    pub entry_normal_fg: Option<String>,
    pub entry_normal_bg: Option<String>,
    pub entry_selected_fg: Option<String>,
    pub entry_selected_bg: Option<String>,
    pub entry_focused_fg: Option<String>,
    pub entry_focused_bg: Option<String>,
    pub list_title_fg: Option<String>,
    pub list_title_bg: Option<String>,
    pub list_border_fg: Option<String>,
    pub list_border_bg: Option<String>,
    pub cursor_bg: Option<String>,
    pub search_match_fg: Option<String>,
    pub search_match_bg: Option<String>,
    pub preview_label_fg: Option<String>,
    pub preview_label_bg: Option<String>,
    pub preview_value_fg: Option<String>,
    pub preview_value_bg: Option<String>,
}

impl Default for ThemeConfig {
    fn default() -> (r: ThemeConfig)
        ensures
            r.selected_fg@ == "white"@,
            r.selected_bg@ == "blue"@,
            r.highlight_fg@ == "yellow"@,
            r.status_bg@ == "dark_gray"@,
            r.status_fg@ == "white"@,
            r.status_search_bg@ == "dark_gray"@,
            r.status_search_fg@ == "white"@,
            r.help_key_fg@ == "yellow"@,
            r.help_key_bg@ == "dark_gray"@,
            r.help_desc_fg@ == "white"@,
            r.help_desc_bg@ == "dark_gray"@,
            r.entry_normal_fg@ == "white"@,
            r.entry_normal_bg@ == "black"@,
            r.entry_selected_fg@ == "white"@,
            r.entry_selected_bg@ == "dark_gray"@,
            r.entry_focused_fg@ == "black"@,
            r.entry_focused_bg@ == "cyan"@,
            r.list_title_fg@ == "yellow"@,
            r.list_title_bg@ == "black"@,
            r.list_border_fg@ == "gray"@,
            r.list_border_bg@ == "black"@,
            r.cursor_bg@ == "white"@,
            r.search_match_fg@ == "black"@,
            r.search_match_bg@ == "yellow"@,
            r.preview_label_fg@ == "cyan"@,
            r.preview_label_bg@ == "black"@,
            r.preview_value_fg@ == "white"@,
            r.preview_value_bg@ == "black"@,
    {
        ThemeConfig {
            selected_fg: String::from_str("white"),
            selected_bg: String::from_str("blue"),
            highlight_fg: String::from_str("yellow"),
            status_bg: String::from_str("dark_gray"),
            status_fg: String::from_str("white"),
            status_search_bg: String::from_str("dark_gray"),
            status_search_fg: String::from_str("white"),
            help_key_fg: String::from_str("yellow"),
            help_key_bg: String::from_str("dark_gray"),
            help_desc_fg: String::from_str("white"),
            help_desc_bg: String::from_str("dark_gray"),
            entry_normal_fg: String::from_str("white"),
            entry_normal_bg: String::from_str("black"),
            entry_selected_fg: String::from_str("white"),
            entry_selected_bg: String::from_str("dark_gray"),
            entry_focused_fg: String::from_str("black"),
            entry_focused_bg: String::from_str("cyan"),
            list_title_fg: String::from_str("yellow"),
            list_title_bg: String::from_str("black"),
            list_border_fg: String::from_str("gray"),
            list_border_bg: String::from_str("black"),
            cursor_bg: String::from_str("white"),
            search_match_fg: String::from_str("black"),
            search_match_bg: String::from_str("yellow"),
            preview_label_fg: String::from_str("cyan"),
            preview_label_bg: String::from_str("black"),
            preview_value_fg: String::from_str("white"),
            preview_value_bg: String::from_str("black"),
        }
    }
}

/// `s` overridden by `o`'s text where `o` has one.
pub open spec fn override_text(s: String, o: Option<String>) -> Seq<char> {
    match o {
        Some(v) => v@,
        None => s@,
    }
}

/// Replaces `target` by the text in `o`, if any.
fn merge_text(target: &mut String, o: Option<String>)
    ensures
        final(target)@ == override_text(*old(target), o),
{
    if let Some(v) = o {
        *target = v;
    }
}

impl ThemeConfig {
    /// Applies the overrides present in `partial`.
    pub fn merge_partial(&mut self, partial: PartialThemeConfig)
        ensures
            final(self).selected_fg@ == override_text(old(self).selected_fg, partial.selected_fg),
            final(self).selected_bg@ == override_text(old(self).selected_bg, partial.selected_bg),
            final(self).highlight_fg@ == override_text(old(self).highlight_fg, partial.highlight_fg),
            final(self).status_bg@ == override_text(old(self).status_bg, partial.status_bg),
            final(self).status_fg@ == override_text(old(self).status_fg, partial.status_fg),
            final(self).status_search_bg@ == override_text(old(self).status_search_bg, partial.status_search_bg),
            final(self).status_search_fg@ == override_text(old(self).status_search_fg, partial.status_search_fg),
            final(self).help_key_fg@ == override_text(old(self).help_key_fg, partial.help_key_fg),
            final(self).help_key_bg@ == override_text(old(self).help_key_bg, partial.help_key_bg),
            final(self).help_desc_fg@ == override_text(old(self).help_desc_fg, partial.help_desc_fg),
            final(self).help_desc_bg@ == override_text(old(self).help_desc_bg, partial.help_desc_bg),
            final(self).entry_normal_fg@ == override_text(old(self).entry_normal_fg, partial.entry_normal_fg),
            final(self).entry_normal_bg@ == override_text(old(self).entry_normal_bg, partial.entry_normal_bg),
            final(self).entry_selected_fg@ == override_text(old(self).entry_selected_fg, partial.entry_selected_fg),
            final(self).entry_selected_bg@ == override_text(old(self).entry_selected_bg, partial.entry_selected_bg),
            final(self).entry_focused_fg@ == override_text(old(self).entry_focused_fg, partial.entry_focused_fg),
            final(self).entry_focused_bg@ == override_text(old(self).entry_focused_bg, partial.entry_focused_bg),
            final(self).list_title_fg@ == override_text(old(self).list_title_fg, partial.list_title_fg),
            final(self).list_title_bg@ == override_text(old(self).list_title_bg, partial.list_title_bg),
            final(self).list_border_fg@ == override_text(old(self).list_border_fg, partial.list_border_fg),
            final(self).list_border_bg@ == override_text(old(self).list_border_bg, partial.list_border_bg),
            final(self).cursor_bg@ == override_text(old(self).cursor_bg, partial.cursor_bg),
            final(self).search_match_fg@ == override_text(old(self).search_match_fg, partial.search_match_fg),
            final(self).search_match_bg@ == override_text(old(self).search_match_bg, partial.search_match_bg),
            final(self).preview_label_fg@ == override_text(old(self).preview_label_fg, partial.preview_label_fg),
            final(self).preview_label_bg@ == override_text(old(self).preview_label_bg, partial.preview_label_bg),
            final(self).preview_value_fg@ == override_text(old(self).preview_value_fg, partial.preview_value_fg),
            final(self).preview_value_bg@ == override_text(old(self).preview_value_bg, partial.preview_value_bg),
    {
        merge_text(&mut self.selected_fg, partial.selected_fg);
        merge_text(&mut self.selected_bg, partial.selected_bg);
        merge_text(&mut self.highlight_fg, partial.highlight_fg);
        merge_text(&mut self.status_bg, partial.status_bg);
        merge_text(&mut self.status_fg, partial.status_fg);
        merge_text(&mut self.status_search_bg, partial.status_search_bg);
        merge_text(&mut self.status_search_fg, partial.status_search_fg);
        merge_text(&mut self.help_key_fg, partial.help_key_fg);
        merge_text(&mut self.help_key_bg, partial.help_key_bg);
        merge_text(&mut self.help_desc_fg, partial.help_desc_fg);
        merge_text(&mut self.help_desc_bg, partial.help_desc_bg);
        merge_text(&mut self.entry_normal_fg, partial.entry_normal_fg);
        merge_text(&mut self.entry_normal_bg, partial.entry_normal_bg);
        merge_text(&mut self.entry_selected_fg, partial.entry_selected_fg);
        merge_text(&mut self.entry_selected_bg, partial.entry_selected_bg);
        merge_text(&mut self.entry_focused_fg, partial.entry_focused_fg);
        merge_text(&mut self.entry_focused_bg, partial.entry_focused_bg);
        merge_text(&mut self.list_title_fg, partial.list_title_fg);
        merge_text(&mut self.list_title_bg, partial.list_title_bg);
        merge_text(&mut self.list_border_fg, partial.list_border_fg);
        merge_text(&mut self.list_border_bg, partial.list_border_bg);
        merge_text(&mut self.cursor_bg, partial.cursor_bg);
        merge_text(&mut self.search_match_fg, partial.search_match_fg);
        merge_text(&mut self.search_match_bg, partial.search_match_bg);
        merge_text(&mut self.preview_label_fg, partial.preview_label_fg);
        merge_text(&mut self.preview_label_bg, partial.preview_label_bg);
        merge_text(&mut self.preview_value_fg, partial.preview_value_fg);
        merge_text(&mut self.preview_value_bg, partial.preview_value_bg);
    }

    /// Each colour setting with its name in the configuration file, in
    /// order.
    pub fn named_colors(&self) -> (r: Vec<(String, String)>)
        ensures
            r@.len() == 28,
            r@[0].0@ == "theme.selected_fg"@ && r@[0].1@ == self.selected_fg@,
            r@[1].0@ == "theme.selected_bg"@ && r@[1].1@ == self.selected_bg@,
            r@[2].0@ == "theme.highlight_fg"@ && r@[2].1@ == self.highlight_fg@,
            r@[3].0@ == "theme.status_bg"@ && r@[3].1@ == self.status_bg@,
            r@[4].0@ == "theme.status_fg"@ && r@[4].1@ == self.status_fg@,
            r@[5].0@ == "theme.status_search_bg"@ && r@[5].1@ == self.status_search_bg@,
            r@[6].0@ == "theme.status_search_fg"@ && r@[6].1@ == self.status_search_fg@,
            r@[7].0@ == "theme.help_key_fg"@ && r@[7].1@ == self.help_key_fg@,
            r@[8].0@ == "theme.help_key_bg"@ && r@[8].1@ == self.help_key_bg@,
            r@[9].0@ == "theme.help_desc_fg"@ && r@[9].1@ == self.help_desc_fg@,
            r@[10].0@ == "theme.help_desc_bg"@ && r@[10].1@ == self.help_desc_bg@,
            r@[11].0@ == "theme.entry_normal_fg"@ && r@[11].1@ == self.entry_normal_fg@,
            r@[12].0@ == "theme.entry_normal_bg"@ && r@[12].1@ == self.entry_normal_bg@,
            r@[13].0@ == "theme.entry_selected_fg"@ && r@[13].1@ == self.entry_selected_fg@,
            r@[14].0@ == "theme.entry_selected_bg"@ && r@[14].1@ == self.entry_selected_bg@,
            r@[15].0@ == "theme.entry_focused_fg"@ && r@[15].1@ == self.entry_focused_fg@,
            r@[16].0@ == "theme.entry_focused_bg"@ && r@[16].1@ == self.entry_focused_bg@,
            r@[17].0@ == "theme.list_title_fg"@ && r@[17].1@ == self.list_title_fg@,
            r@[18].0@ == "theme.list_title_bg"@ && r@[18].1@ == self.list_title_bg@,
            r@[19].0@ == "theme.list_border_fg"@ && r@[19].1@ == self.list_border_fg@,
            r@[20].0@ == "theme.list_border_bg"@ && r@[20].1@ == self.list_border_bg@,
            r@[21].0@ == "theme.cursor_bg"@ && r@[21].1@ == self.cursor_bg@,
            r@[22].0@ == "theme.search_match_fg"@ && r@[22].1@ == self.search_match_fg@,
            r@[23].0@ == "theme.search_match_bg"@ && r@[23].1@ == self.search_match_bg@,
            r@[24].0@ == "theme.preview_label_fg"@ && r@[24].1@ == self.preview_label_fg@,
            r@[25].0@ == "theme.preview_label_bg"@ && r@[25].1@ == self.preview_label_bg@,
            r@[26].0@ == "theme.preview_value_fg"@ && r@[26].1@ == self.preview_value_fg@,
            r@[27].0@ == "theme.preview_value_bg"@ && r@[27].1@ == self.preview_value_bg@,
    {
        let mut r: Vec<(String, String)> = Vec::new();
        r.push((String::from_str("theme.selected_fg"), self.selected_fg.clone()));
        r.push((String::from_str("theme.selected_bg"), self.selected_bg.clone()));
        r.push((String::from_str("theme.highlight_fg"), self.highlight_fg.clone()));
        r.push((String::from_str("theme.status_bg"), self.status_bg.clone()));
        r.push((String::from_str("theme.status_fg"), self.status_fg.clone()));
        r.push((String::from_str("theme.status_search_bg"), self.status_search_bg.clone()));
        r.push((String::from_str("theme.status_search_fg"), self.status_search_fg.clone()));
        r.push((String::from_str("theme.help_key_fg"), self.help_key_fg.clone()));
        r.push((String::from_str("theme.help_key_bg"), self.help_key_bg.clone()));
        r.push((String::from_str("theme.help_desc_fg"), self.help_desc_fg.clone()));
        r.push((String::from_str("theme.help_desc_bg"), self.help_desc_bg.clone()));
        r.push((String::from_str("theme.entry_normal_fg"), self.entry_normal_fg.clone()));
        r.push((String::from_str("theme.entry_normal_bg"), self.entry_normal_bg.clone()));
        r.push((String::from_str("theme.entry_selected_fg"), self.entry_selected_fg.clone()));
        r.push((String::from_str("theme.entry_selected_bg"), self.entry_selected_bg.clone()));
        r.push((String::from_str("theme.entry_focused_fg"), self.entry_focused_fg.clone()));
        r.push((String::from_str("theme.entry_focused_bg"), self.entry_focused_bg.clone()));
        r.push((String::from_str("theme.list_title_fg"), self.list_title_fg.clone()));
        r.push((String::from_str("theme.list_title_bg"), self.list_title_bg.clone()));
        r.push((String::from_str("theme.list_border_fg"), self.list_border_fg.clone()));
        r.push((String::from_str("theme.list_border_bg"), self.list_border_bg.clone()));
        r.push((String::from_str("theme.cursor_bg"), self.cursor_bg.clone()));
        r.push((String::from_str("theme.search_match_fg"), self.search_match_fg.clone()));
        r.push((String::from_str("theme.search_match_bg"), self.search_match_bg.clone()));
        r.push((String::from_str("theme.preview_label_fg"), self.preview_label_fg.clone()));
        r.push((String::from_str("theme.preview_label_bg"), self.preview_label_bg.clone()));
        r.push((String::from_str("theme.preview_value_fg"), self.preview_value_fg.clone()));
        r.push((String::from_str("theme.preview_value_bg"), self.preview_value_bg.clone()));
        r
    }
}

/// `new` is `old` with the overrides of `p` applied.
pub open spec fn theme_merged(old: ThemeConfig, new: ThemeConfig, p: PartialThemeConfig) -> bool {
    &&& new.selected_fg@ == override_text(old.selected_fg, p.selected_fg)
    &&& new.selected_bg@ == override_text(old.selected_bg, p.selected_bg)
    &&& new.highlight_fg@ == override_text(old.highlight_fg, p.highlight_fg)
    &&& new.status_bg@ == override_text(old.status_bg, p.status_bg)
    &&& new.status_fg@ == override_text(old.status_fg, p.status_fg)
    &&& new.status_search_bg@ == override_text(old.status_search_bg, p.status_search_bg)
    &&& new.status_search_fg@ == override_text(old.status_search_fg, p.status_search_fg)
    &&& new.help_key_fg@ == override_text(old.help_key_fg, p.help_key_fg)
    &&& new.help_key_bg@ == override_text(old.help_key_bg, p.help_key_bg)
    &&& new.help_desc_fg@ == override_text(old.help_desc_fg, p.help_desc_fg)
    &&& new.help_desc_bg@ == override_text(old.help_desc_bg, p.help_desc_bg)
    &&& new.entry_normal_fg@ == override_text(old.entry_normal_fg, p.entry_normal_fg)
    &&& new.entry_normal_bg@ == override_text(old.entry_normal_bg, p.entry_normal_bg)
    &&& new.entry_selected_fg@ == override_text(old.entry_selected_fg, p.entry_selected_fg)
    &&& new.entry_selected_bg@ == override_text(old.entry_selected_bg, p.entry_selected_bg)
    &&& new.entry_focused_fg@ == override_text(old.entry_focused_fg, p.entry_focused_fg)
    &&& new.entry_focused_bg@ == override_text(old.entry_focused_bg, p.entry_focused_bg)
    &&& new.list_title_fg@ == override_text(old.list_title_fg, p.list_title_fg)
    &&& new.list_title_bg@ == override_text(old.list_title_bg, p.list_title_bg)
    &&& new.list_border_fg@ == override_text(old.list_border_fg, p.list_border_fg)
    &&& new.list_border_bg@ == override_text(old.list_border_bg, p.list_border_bg)
    &&& new.cursor_bg@ == override_text(old.cursor_bg, p.cursor_bg)
    &&& new.search_match_fg@ == override_text(old.search_match_fg, p.search_match_fg)
    &&& new.search_match_bg@ == override_text(old.search_match_bg, p.search_match_bg)
    &&& new.preview_label_fg@ == override_text(old.preview_label_fg, p.preview_label_fg)
    &&& new.preview_label_bg@ == override_text(old.preview_label_bg, p.preview_label_bg)
    &&& new.preview_value_fg@ == override_text(old.preview_value_fg, p.preview_value_fg)
    &&& new.preview_value_bg@ == override_text(old.preview_value_bg, p.preview_value_bg)
}

impl Default for SearchConfig {
    fn default() -> (r: SearchConfig)
        ensures
            r.smart_case && r.fuzzy && r.search_all_fields,
    {
        SearchConfig { smart_case: true, fuzzy: true, search_all_fields: true }
    }
}

impl Default for DisplayConfig {
    fn default() -> (r: DisplayConfig)
        ensures
            r.format@ == DEFAULT_FORMAT@,
    {
        DisplayConfig { format: String::from_str(DEFAULT_FORMAT) }
    }
}

/// The template of the preview pattern used when none is configured.
pub const DEFAULT_PREVIEW_TEMPLATE: &'static str = "Citekey: {citekey}\nType: {entry_type}\n\nTitle: {title}\nAuthor(s): {author}\nYear: {year}\nJournal: {journal}\nDOI: {doi}\n\nAbstract:\n{abstract}";

impl Default for PreviewConfig {
    fn default() -> (r: PreviewConfig)
        ensures
            r.patterns@.len() == 1,
            r.patterns@[0].name matches Some(n) && n@ == "Default"@,
            r.patterns@[0].template@ == DEFAULT_PREVIEW_TEMPLATE@,
    {
        PreviewConfig {
            patterns: vec![
                PreviewPattern {
                    name: Some(String::from_str("Default")),
                    template: String::from_str(DEFAULT_PREVIEW_TEMPLATE),
                },
            ],
        }
    }
}

impl NotesConfig {
    /// The notes settings used when none are configured, with notes kept in
    /// `notes_dir`.
    pub fn with_dir(notes_dir: String) -> (r: NotesConfig)
        ensures
            r.notes_dir == notes_dir,
            r.filename_pattern@ == "{citekey}.md"@,
            r.template_file is None,
    {
        NotesConfig {
            notes_dir,
            filename_pattern: String::from_str("{citekey}.md"),
            template_file: None,
        }
    }
}

/// The key bindings used when none are configured.
pub open spec fn default_keybinding_pairs() -> Seq<(Seq<char>, Seq<char>)> {
    seq![
        (UP@, "k"@),
        (DOWN@, "j"@),
        (SEARCH@, "/"@),
        (QUIT@, "q"@),
        (EDIT@, "e"@),
        (NOTE@, "n"@),
        (PDF@, "p"@),
        (COPY@, "y"@),
        (PREVIEW@, "i"@),
        (PAGE_UP@, "ctrl+u"@),
        (PAGE_DOWN@, "ctrl+d"@),
        (GOTO_TOP@, "gg"@),
        (GOTO_BOTTOM@, "G"@),
    ]
}

/// The key bindings used when none are configured.
pub fn default_keybindings() -> (r: FieldMap)
    ensures
        r@ == default_keybinding_pairs(),
        r.wf(),
{
    let pairs: Vec<(String, String)> = vec![
        (String::from_str(UP), String::from_str("k")),
        (String::from_str(DOWN), String::from_str("j")),
        (String::from_str(SEARCH), String::from_str("/")),
        (String::from_str(QUIT), String::from_str("q")),
        (String::from_str(EDIT), String::from_str("e")),
        (String::from_str(NOTE), String::from_str("n")),
        (String::from_str(PDF), String::from_str("p")),
        (String::from_str(COPY), String::from_str("y")),
        (String::from_str(PREVIEW), String::from_str("i")),
        (String::from_str(PAGE_UP), String::from_str("ctrl+u")),
        (String::from_str(PAGE_DOWN), String::from_str("ctrl+d")),
        (String::from_str(GOTO_TOP), String::from_str("gg")),
        (String::from_str(GOTO_BOTTOM), String::from_str("G")),
    ];
    proof {
        reveal_strlit("up");
        reveal_strlit("down");
        reveal_strlit("search");
        reveal_strlit("quit");
        reveal_strlit("edit");
        reveal_strlit("note");
        reveal_strlit("pdf");
        reveal_strlit("copy");
        reveal_strlit("preview");
        reveal_strlit("page_up");
        reveal_strlit("page_down");
        reveal_strlit("goto_top");
        reveal_strlit("goto_bottom");
        assert(pairs_view(pairs@) =~= default_keybinding_pairs());
        let ps = default_keybinding_pairs();
        assert forall|i: int, j: int| 0 <= i < j < ps.len() implies ps[i].0 != ps[j].0 by {
            assert(ps[i].0.len() != ps[j].0.len() || ps[i].0[0] != ps[j].0[0] || ps[i].0[1]
                != ps[j].0[1]);
        }
    }
    FieldMap::from_pairs(pairs)
}

/// The editor named by the value of `$EDITOR`: trimmed, and none when blank
/// or unset.
pub fn editor_from_env(value: Option<&str>) -> (r: Option<String>)
    ensures
        match value {
            Some(v) => if trim(v@).len() > 0 {
                r matches Some(e) && e@ == trim(v@)
            } else {
                r is None
            },
            None => r is None,
        },
{
    match value {
        Some(v) => {
            let t = trim_chars(&chars_of(v));
            if t.len() > 0 {
                Some(string_of(&t))
            } else {
                None
            }
        },
        None => None,
    }
}

impl Config {
    /// The settings used when none are configured, given the editor named
    /// by the environment and the directory for notes.
    pub fn with_environment(editor: Option<String>, notes_dir: String) -> (r: Config)
        ensures
            r.bibtex_files@.len() == 0,
            r.search.smart_case && r.search.fuzzy && r.search.search_all_fields,
            r.display.format@ == DEFAULT_FORMAT@,
            r.preview.patterns@.len() == 1,
            r.keybindings@ == default_keybinding_pairs(),
            r.keybindings.wf(),
            r.editor == editor,
            r.notes.notes_dir == notes_dir,
            r.notes.filename_pattern@ == "{citekey}.md"@,
            r.notes.template_file is None,
            r.pdf_reader is None,
            !r.mouse_enabled,
    {
        Config {
            bibtex_files: Vec::new(),
            search: SearchConfig::default(),
            display: DisplayConfig::default(),
            preview: PreviewConfig::default(),
            keybindings: default_keybindings(),
            theme: ThemeConfig::default(),
            editor,
            notes: NotesConfig::with_dir(notes_dir),
            pdf_reader: None,
            mouse_enabled: false,
        }
    }
}

// ---------------------------------------------------------------------------
// Partial settings and merging.
// ---------------------------------------------------------------------------

/// `current` overridden by `o` where `o` has a value.
pub open spec fn override_with<T>(current: T, o: Option<T>) -> T {
    match o {
        Some(v) => v,
        None => current,
    }
}

/// User overrides of the search settings.
#[derive(Debug, Clone, Default)]
pub struct PartialSearchConfig {
    pub smart_case: Option<bool>,
    pub fuzzy: Option<bool>,
    pub search_all_fields: Option<bool>,
}

/// User overrides of the display settings.
#[derive(Debug, Clone, Default)]
pub struct PartialDisplayConfig {
    pub format: Option<String>,
}

/// User overrides of the preview settings.
#[derive(Debug, Clone, Default)]
pub struct PartialPreviewConfig {
    pub patterns: Option<Vec<PreviewPattern>>,
}

/// User overrides of the notes settings; `notes_dir` wins over its older
/// spelling `dir`.
#[derive(Debug, Clone, Default)]
pub struct PartialNotesConfig {
    pub dir: Option<String>,
    pub notes_dir: Option<String>,
    pub filename_pattern: Option<String>,
    pub template_file: Option<Option<String>>,
}

/// User overrides of the settings, as read from a configuration file; an
/// absent value keeps the current one. Key bindings are added to (or
/// replace) the current ones.
#[derive(Debug, Clone, Default)]
pub struct PartialConfig {
    pub bibtex_files: Option<Vec<String>>,
    pub search: Option<PartialSearchConfig>,
    pub display: Option<PartialDisplayConfig>,
    pub preview: Option<PartialPreviewConfig>,
    pub keybindings: Option<Vec<(String, String)>>,
    pub theme: Option<PartialThemeConfig>,
    pub editor: Option<Option<String>>,
    pub notes: Option<PartialNotesConfig>,
    pub pdf_reader: Option<Option<String>>,
    pub mouse_enabled: Option<bool>,
}

impl SearchConfig {
    /// Applies the overrides present in `partial`.
    pub fn merge_partial(&mut self, partial: PartialSearchConfig)
        ensures
            final(self).smart_case == override_with(old(self).smart_case, partial.smart_case),
            final(self).fuzzy == override_with(old(self).fuzzy, partial.fuzzy),
            final(self).search_all_fields == override_with(
                old(self).search_all_fields,
                partial.search_all_fields,
            ),
    {
        if let Some(v) = partial.smart_case {
            self.smart_case = v;
        }
        if let Some(v) = partial.fuzzy {
            self.fuzzy = v;
        }
        if let Some(v) = partial.search_all_fields {
            self.search_all_fields = v;
        }
    }
}

impl DisplayConfig {
    /// Applies the overrides present in `partial`.
    pub fn merge_partial(&mut self, partial: PartialDisplayConfig)
        ensures
            final(self).format@ == override_text(old(self).format, partial.format),
    {
        if let Some(v) = partial.format {
            self.format = v;
        }
    }
}

impl PreviewConfig {
    /// Applies the overrides present in `partial`.
    pub fn merge_partial(&mut self, partial: PartialPreviewConfig)
        ensures
            final(self).patterns == override_with(old(self).patterns, partial.patterns),
    {
        if let Some(v) = partial.patterns {
            self.patterns = v;
        }
    }
}

impl NotesConfig {
    /// Applies the overrides present in `partial`.
    pub fn merge_partial(&mut self, partial: PartialNotesConfig)
        ensures
            final(self).notes_dir == override_with(
                override_with(old(self).notes_dir, partial.dir),
                partial.notes_dir,
            ),
            final(self).filename_pattern == override_with(
                old(self).filename_pattern,
                partial.filename_pattern,
            ),
            final(self).template_file == override_with(
                old(self).template_file,
                partial.template_file,
            ),
    {
        let dir = match partial.notes_dir {
            Some(v) => Some(v),
            None => partial.dir,
        };
        if let Some(v) = dir {
            self.notes_dir = v;
        }
        if let Some(v) = partial.filename_pattern {
            self.filename_pattern = v;
        }
        if let Some(v) = partial.template_file {
            self.template_file = v;
        }
    }
}

/// `ps` after storing each of `more`, in order.
pub open spec fn extend_pairs(
    ps: Seq<(Seq<char>, Seq<char>)>,
    more: Seq<(Seq<char>, Seq<char>)>,
) -> Seq<(Seq<char>, Seq<char>)>
    decreases more.len(),
{
    if more.len() == 0 {
        ps
    } else {
        field_insert(extend_pairs(ps, more.drop_last()), more.last().0, more.last().1)
    }
}

/// The key bindings after applying overrides `o`, if any.
pub open spec fn merged_keybindings(
    ps: Seq<(Seq<char>, Seq<char>)>,
    o: Option<Vec<(String, String)>>,
) -> Seq<(Seq<char>, Seq<char>)> {
    match o {
        Some(v) => extend_pairs(ps, pairs_view(v@)),
        None => ps,
    }
}

impl FieldMap {
    /// Stores each of `more` in turn (`HashMap::extend`).
    pub fn extend(&mut self, more: Vec<(String, String)>)
        requires
            old(self).wf(),
        ensures
            final(self).wf(),
            final(self)@ == extend_pairs(old(self)@, pairs_view(more@)),
    {
        let ghost mv = pairs_view(more@);
        let mut rest = more;
        let ghost orig = rest@;
        let mut k: usize = 0;
        let n = rest.len();
        assert(mv.take(0) =~= Seq::<(Seq<char>, Seq<char>)>::empty());
        while rest.len() > 0
            invariant
                self.wf(),
                k <= n,
                n == orig.len(),
                mv == pairs_view(orig),
                rest@ == orig.skip(k as int),
                self@ == extend_pairs(old(self)@, mv.take(k as int)),
            decreases rest.len(),
        {
            let (key, value) = rest.remove(0);
            assert(mv.take(k + 1).drop_last() =~= mv.take(k as int));
            assert(mv.take(k + 1).last() == (key@, value@));
            self.insert(key, value);
            k += 1;
            assert(rest@ =~= orig.skip(k as int));
        }
        assert(mv.take(k as int) =~= mv);
    }
}

impl Config {
    /// Applies the overrides present in `partial`; key bindings from
    /// `partial` are added to the current ones, replacing those of the same
    /// action.
    #[verifier::rlimit(50)]
    pub fn merge_partial(&mut self, partial: PartialConfig)
        requires
            old(self).keybindings.wf(),
        ensures
            final(self).keybindings.wf(),
            final(self).bibtex_files == override_with(old(self).bibtex_files, partial.bibtex_files),
            final(self).editor == override_with(old(self).editor, partial.editor),
            final(self).pdf_reader == override_with(old(self).pdf_reader, partial.pdf_reader),
            final(self).mouse_enabled == override_with(
                old(self).mouse_enabled,
                partial.mouse_enabled,
            ),
            partial.search is None ==> final(self).search == old(self).search,
            partial.display is None ==> final(self).display == old(self).display,
            partial.preview is None ==> final(self).preview == old(self).preview,
            partial.theme is None ==> final(self).theme == old(self).theme,
            partial.notes is None ==> final(self).notes == old(self).notes,
            partial.search matches Some(p) ==> {
                &&& final(self).search.smart_case == override_with(old(self).search.smart_case, p.smart_case)
                &&& final(self).search.fuzzy == override_with(old(self).search.fuzzy, p.fuzzy)
                &&& final(self).search.search_all_fields == override_with(
                    old(self).search.search_all_fields,
                    p.search_all_fields,
                )
            },
            partial.display matches Some(p) ==> final(self).display.format@ == override_text(
                old(self).display.format,
                p.format,
            ),
            partial.preview matches Some(p) ==> final(self).preview.patterns == override_with(
                old(self).preview.patterns,
                p.patterns,
            ),
            partial.theme matches Some(p) ==> theme_merged(old(self).theme, final(self).theme, p),
            partial.notes matches Some(p) ==> {
                &&& final(self).notes.notes_dir == override_with(
                    override_with(old(self).notes.notes_dir, p.dir),
                    p.notes_dir,
                )
                &&& final(self).notes.filename_pattern == override_with(
                    old(self).notes.filename_pattern,
                    p.filename_pattern,
                )
                &&& final(self).notes.template_file == override_with(
                    old(self).notes.template_file,
                    p.template_file,
                )
            },
            final(self).keybindings@ == merged_keybindings(old(self).keybindings@, partial.keybindings),
    {
        if let Some(files) = partial.bibtex_files {
            self.bibtex_files = files;
        }
        if let Some(editor) = partial.editor {
            self.editor = editor;
        }
        if let Some(pdf_reader) = partial.pdf_reader {
            self.pdf_reader = pdf_reader;
        }
        if let Some(mouse) = partial.mouse_enabled {
            self.mouse_enabled = mouse;
        }
        if let Some(search) = partial.search {
            self.search.merge_partial(search);
        }
        if let Some(display) = partial.display {
            self.display.merge_partial(display);
        }
        if let Some(preview) = partial.preview {
            self.preview.merge_partial(preview);
        }
        if let Some(theme) = partial.theme {
            self.theme.merge_partial(theme);
        }
        if let Some(notes) = partial.notes {
            self.notes.merge_partial(notes);
        }
        if let Some(keybindings) = partial.keybindings {
            self.keybindings.extend(keybindings);
        }
    }
}

} // verus!
