//! Notes for entries: where they are kept and what a new one holds.
pub mod clock;
pub mod names;
pub mod pattern;
pub mod render;

use vstd::prelude::*;

use crate::config::NotesConfig;
use crate::config::paths::{file_name, file_name_of, join_path, join_path_text, parent, parent_of};
use crate::domain::Entry;
use crate::text::{chars_of, decimal, decimal_text, slice_range, string_of, trim, trim_chars};
use self::clock::{local_now, LocalTime};
use self::names::{safe_file_name, cmdline_parts, split_command_line, normalize_rendered_filename, normalized_filename, sanitize_filename_segment, sanitized, stem_and_extension};
use self::render::{render_from, render_text, values_of, NoteValues, NoteValuesView};

verus! {

/// The template of a new note when none is configured.
pub const DEFAULT_TEMPLATE: &'static str = "---\ncitekey: {citekey}\nauthors: {authors}\ntitle: {title}\nyear: {year}\n---\n\n# Notes on {title}\n\n## Summary\n\n## Key Points\n\n## References\n";

/// Creates and locates notes for entries.
pub struct NotesService {
    config: NotesConfig,
}

/// The file name a note file-name pattern gives for `e`: the placeholders
/// replaced (each made safe for file names), the result trimmed, and its
/// stem and extension made safe; an error when it comes out empty.
pub open spec fn filename_spec(pattern: Seq<char>, e: Entry, vals: NoteValuesView) -> Result<
    Seq<char>,
    Seq<char>,
> {
    match render_from(pattern, 0, e, vals, true) {
        Err(m) => Err(m),
        Ok(r) => if trim(r).len() == 0 {
            Err("note filename pattern rendered an empty filename"@)
        } else {
            Ok(normalized_filename(trim(r)))
        },
    }
}

/// Where the note of `e` is kept at the moment `now`: the configured
/// pattern's file name (or, when it fails, the safe citation key with
/// `.md`) in the notes directory.
pub open spec fn note_path_spec(cfg: NotesConfig, e: Entry, now: LocalTime) -> Seq<char> {
    join_path(
        cfg.notes_dir@,
        match filename_spec(cfg.filename_pattern@, e, values_of(e, now)) {
            Ok(n) => n,
            Err(_) => sanitized(e.id.0@) + ".md"@,
        },
    )
}

/// A note always lies directly in the notes directory, under a safe file
/// name (see `safe_file_name`), whatever the pattern and the entry's
/// fields: a pattern that fails gives the sanitized citation key with
/// `.md`.
pub proof fn lemma_note_path_safe(cfg: NotesConfig, e: Entry, now: LocalTime)
    ensures
        exists|name: Seq<char>|
            safe_file_name(name) && #[trigger] join_path(cfg.notes_dir@, name) == note_path_spec(cfg, e, now),
{
    match filename_spec(cfg.filename_pattern@, e, values_of(e, now)) {
        Ok(n) => {
            let r = render_from(cfg.filename_pattern@, 0, e, values_of(e, now), true)->Ok_0;
            self::names::lemma_normalized_filename_safe(trim(r));
            assert(safe_file_name(n));
            assert(join_path(cfg.notes_dir@, n) == note_path_spec(cfg, e, now));
        },
        Err(_) => {
            let a = sanitized(e.id.0@);
            self::names::lemma_sanitized_safe(e.id.0@);
            reveal_strlit(".md");
            let n = a + ".md"@;
            assert(".md"@ =~= seq!['.', 'm', 'd']);
            assert forall|k: int| 0 <= k < n.len() implies self::names::is_name_safe(#[trigger] n[k]) by {
                if k < a.len() {
                    assert(n[k] == a[k]);
                } else {
                    assert(n[k] == ".md"@[k - a.len()]);
                }
            }
            assert(n[0] == a[0]);
            assert(safe_file_name(n));
            assert(join_path(cfg.notes_dir@, n) == note_path_spec(cfg, e, now));
        },
    }
}

/// The template text: the given one, or the default.
pub open spec fn template_text(template: Option<&str>) -> Seq<char> {
    match template {
        Some(t) => t@,
        None => DEFAULT_TEMPLATE@,
    }
}

/// The text of a new note for `e` from the template `t` at the moment
/// `now`.
pub open spec fn content_spec(e: Entry, t: Seq<char>, now: LocalTime) -> Result<Seq<char>, Seq<char>> {
    render_from(t, 0, e, values_of(e, now), false)
}

/// The path `preferred` with `-index` added to its file stem, in the same
/// directory.
pub open spec fn numbered_path_spec(preferred: Seq<char>, index: nat) -> Seq<char> {
    let dir = match parent_of(preferred) {
        Some(d) => d,
        None => "."@,
    };
    let (stem, ext) = match file_name_of(preferred) {
        Some(n) => stem_and_extension(n),
        None => ("note"@, None),
    };
    join_path(
        dir,
        stem + "-"@ + decimal(index) + match ext {
            Some(x) => "."@ + x,
            None => Seq::empty(),
        },
    )
}

/// Renders the file-name pattern `pattern` for `entry`.
pub fn render_filename_pattern(pattern: &str, entry: &Entry, vals: &NoteValues) -> (r: Result<
    String,
    String,
>)
    ensures
        match filename_spec(pattern@, *entry, vals.view_of()) {
            Ok(x) => r matches Ok(y) && y@ == x,
            Err(m) => r matches Err(y) && y@ == m,
        },
{
    let rendered = render_text(&chars_of(pattern), entry, vals, true)?;
    let trimmed = trim_chars(&chars_of(rendered.as_str()));
    if trimmed.len() == 0 {
        return Err(String::from_str("note filename pattern rendered an empty filename"));
    }
    Ok(normalize_rendered_filename(string_of(&trimmed).as_str()))
}

/// Renders the note template `template` for `entry` at the moment `now`.
pub fn render_template(template: &str, entry: &Entry, now: LocalTime) -> (r: Result<String, String>)
    ensures
        match render_from(template@, 0, *entry, values_of(*entry, now), false) {
            Ok(x) => r matches Ok(y) && y@ == x,
            Err(m) => r matches Err(y) && y@ == m,
        },
{
    let vals = NoteValues::from_entry(entry, now);
    render_text(&chars_of(template), entry, &vals, false)
}

impl NotesService {
    /// A service with the given settings.
    pub fn new(config: NotesConfig) -> (r: NotesService)
        ensures
            r.config() == config,
    {
        NotesService { config }
    }

    /// The service's settings.
    pub closed spec fn config(&self) -> NotesConfig {
        self.config
    }

    /// Where the note of `entry` is kept, at the moment `now`.
    pub fn note_path_at(&self, entry: &Entry, now: LocalTime) -> (r: String)
        ensures
            r@ == note_path_spec(self.config(), *entry, now),
    {
        let vals = NoteValues::from_entry(entry, now);
        let name = match render_filename_pattern(self.config.filename_pattern.as_str(), entry, &vals) {
            Ok(n) => n,
            Err(_) => {
                let mut n = sanitize_filename_segment(entry.id.0.as_str());
                n.append(".md");
                n
            },
        };
        join_path_text(self.config.notes_dir.as_str(), name.as_str())
    }

    /// Where the note of `entry` is kept, now.
    pub fn note_path(&self, entry: &Entry) -> (r: String)
        ensures
            exists|now: LocalTime| r@ == #[trigger] note_path_spec(self.config(), *entry, now),
    {
        let now = local_now();
        let r = self.note_path_at(entry, now);
        assert(r@ == note_path_spec(self.config(), *entry, now));
        r
    }

    /// The text of a new note for `entry` at the moment `now`: the template
    /// `template` (the text of the configured template file, if any; the
    /// default template otherwise) with its placeholders replaced.
    pub fn generate_note_content_at(&self, entry: &Entry, template: Option<&str>, now: LocalTime) -> (r:
        Result<String, String>)
        ensures
            match content_spec(*entry, template_text(template), now) {
                Ok(x) => r matches Ok(y) && y@ == x,
                Err(m) => r matches Err(y) && y@ == m,
            },
    {
        match template {
            Some(t) => render_template(t, entry, now),
            None => render_template(DEFAULT_TEMPLATE, entry, now),
        }
    }

    /// The text of a new note for `entry`, now.
    pub fn generate_note_content(&self, entry: &Entry, template: Option<&str>) -> (r: Result<
        String,
        String,
    >)
        ensures
            exists|now: LocalTime|
                match #[trigger] content_spec(*entry, template_text(template), now) {
                    Ok(x) => r matches Ok(y) && y@ == x,
                    Err(m) => r matches Err(y) && y@ == m,
                },
    {
        let now = local_now();
        let r = self.generate_note_content_at(entry, template, now);
        assert(match content_spec(*entry, template_text(template), now) {
            Ok(x) => r matches Ok(y) && y@ == x,
            Err(m) => r matches Err(y) && y@ == m,
        });
        r
    }

    /// The `index`-th alternative to the note path `preferred`, used when
    /// `preferred` is taken by a directory.
    pub fn numbered_path(preferred: &str, index: usize) -> (r: String)
        ensures
            r@ == numbered_path_spec(preferred@, index as nat),
    {
        let dir = match parent(preferred) {
            Some(d) => d,
            None => String::from_str("."),
        };
        let (stem, ext): (String, Option<String>) = match file_name(preferred) {
            Some(n) => {
                let c = chars_of(n.as_str());
                match crate::infra::launcher::rfind_char_exec(&c, '.') {
                    Some(i) => {
                        assert(i < c@.len());
                        assert(i < c.len());
                        if i == 0 {
                            (n, None)
                        } else {
                            (string_of(&slice_range(&c, 0, i)), Some(string_of(&slice_range(&c, i + 1, c.len()))))
                        }
                    },
                    None => (n, None),
                }
            },
            None => (String::from_str("note"), None),
        };
        let mut name = stem;
        name.append("-");
        name.append(decimal_text(index).as_str());
        if let Some(x) = ext {
            name.append(".");
            name.append(x.as_str());
        }
        join_path_text(dir.as_str(), name.as_str())
    }
}


/// The editor command for notes: `$VISUAL`, else `$EDITOR` (the first that
/// is not blank), split into words; none when neither names a command.
pub open spec fn editor_command_spec(visual: Option<Seq<char>>, editor: Option<Seq<char>>) -> Option<
    Seq<Seq<char>>,
> {
    let chosen = match visual {
        Some(v) if trim(v).len() > 0 => Some(v),
        _ => match editor {
            Some(e) if trim(e).len() > 0 => Some(e),
            _ => None,
        },
    };
    match chosen {
        Some(c) => if cmdline_parts(c).len() > 0 {
            Some(cmdline_parts(c))
        } else {
            None
        },
        None => None,
    }
}

/// The editor command for notes given the values of `$VISUAL` and
/// `$EDITOR` (`editor_command_spec`).
pub fn editor_command_from(visual: Option<&str>, editor: Option<&str>) -> (r: Option<Vec<String>>)
    ensures
        match editor_command_spec(
            match visual {
                Some(v) => Some(v@),
                None => None,
            },
            match editor {
                Some(e) => Some(e@),
                None => None,
            },
        ) {
            Some(ws) => r matches Some(v) && v@.map_values(|s: String| s@) == ws,
            None => r is None,
        },
{
    let chosen: Option<&str> = match visual {
        Some(v) if trim_chars(&chars_of(v)).len() > 0 => Some(v),
        _ => match editor {
            Some(e) if trim_chars(&chars_of(e)).len() > 0 => Some(e),
            _ => None,
        },
    };
    match chosen {
        Some(c) => {
            let parts = split_command_line(c);
            if parts.len() > 0 {
                Some(parts)
            } else {
                None
            }
        },
        None => None,
    }
}

} // verus!
