//! Validation of the settings: key-binding actions and their parameters,
//! theme colours, and the configured paths.
use vstd::prelude::*;

use crate::text::{
    chars_eq, chars_of, decimal, decimal_text, find, find_exec, is_ascii_hexdigit,
    is_ascii_hexdigit_char, parse_unsigned, parse_unsigned_exec, slice_range, split, split_exec,
    string_of, trim, trim_chars, ends_with, ends_with_exec,
};
use super::paths::{after_last_slash, strip_tail};
use super::{
    Config, ThemeConfig, UP, DOWN, SEARCH, QUIT, EDIT, NOTE, PDF, COPY, SORT_YEAR, SORT_AUTHOR,
    PREVIEW, PAGE_UP, PAGE_DOWN, GOTO_TOP, GOTO_BOTTOM,
};

verus! {

/// The action names a key binding may name.
pub open spec fn keybinding_actions() -> Seq<Seq<char>> {
    seq![UP@, DOWN@, SEARCH@, QUIT@, EDIT@, NOTE@, PDF@, COPY@, SORT_YEAR@, SORT_AUTHOR@, PREVIEW@, PAGE_UP@, PAGE_DOWN@, GOTO_TOP@, GOTO_BOTTOM@]
}

/// The colour names a theme may use.
pub open spec fn theme_color_names() -> Seq<Seq<char>> {
    seq!["black"@, "red"@, "green"@, "yellow"@, "blue"@, "magenta"@, "cyan"@, "white"@, "dark_gray"@, "light_red"@, "light_green"@, "light_yellow"@, "light_blue"@, "light_magenta"@, "light_cyan"@, "gray"@]
}

/// The colour names as listed in error messages.
pub const COLOR_LIST: &'static str = "black, red, green, yellow, blue, magenta, cyan, white, dark_gray, light_red, light_green, light_yellow, light_blue, light_magenta, light_cyan, gray";

/// A colour written `#RRGGBB`.
pub open spec fn is_hex_color_spec(c: Seq<char>) -> bool {
    &&& c.len() == 7
    &&& c[0] == '#'
    &&& forall|i: int| 1 <= i < 7 ==> is_ascii_hexdigit(#[trigger] c[i])
}

/// Whether `color` is written `#RRGGBB`.
pub fn is_hex_color(color: &str) -> (r: bool)
    ensures
        r == is_hex_color_spec(color@),
{
    let c = chars_of(color);
    if c.len() != 7 || c[0] != '#' {
        return false;
    }
    let mut i: usize = 1;
    while i < 7
        invariant
            1 <= i <= 7,
            c@.len() == 7,
            c@ == color@,
            c@[0] == '#',
            forall|k: int| 1 <= k < i ==> is_ascii_hexdigit(#[trigger] c@[k]),
        decreases 7 - i,
    {
        if !is_ascii_hexdigit_char(c[i]) {
            assert(!is_ascii_hexdigit(c@[i as int]));
            return false;
        }
        i += 1;
    }
    true
}

/// The texts of `v`.
pub open spec fn strs_view(v: Seq<&str>) -> Seq<Seq<char>> {
    v.map_values(|n: &str| n@)
}

/// Whether `s` is one of `names`.
fn is_one_of(s: &str, names: &[&str]) -> (r: bool)
    ensures
        r == strs_view(names@).contains(s@),
{
    let c = chars_of(s);
    let mut i: usize = 0;
    while i < names.len()
        invariant
            i <= names@.len(),
            c@ == s@,
            forall|k: int| 0 <= k < i ==> (#[trigger] names@[k])@ != s@,
        decreases names.len() - i,
    {
        if chars_eq(&chars_of(names[i]), &c) {
            assert(strs_view(names@)[i as int] == s@);
            return true;
        }
        i += 1;
    }
    assert(!strs_view(names@).contains(s@)) by {
        if strs_view(names@).contains(s@) {
            let k = choose|k: int|
                0 <= k < names@.len() && #[trigger] strs_view(names@)[k] == s@;
            assert(names@[k]@ == s@);
        }
    }
    false
}

/// The message for a colour that is neither a known name nor `#RRGGBB`.
pub open spec fn color_error(field: Seq<char>, color: Seq<char>) -> Seq<char> {
    "Invalid color '"@ + color + "' for "@ + field + ". Expected one of: "@ + COLOR_LIST@
        + " or a hex color like #RRGGBB"@
}

/// Accepts a colour name or `#RRGGBB` for the setting `field`.
pub fn validate_theme_color(field: &str, color: &str) -> (r: Result<(), String>)
    ensures
        r is Ok <==> theme_color_names().contains(color@) || is_hex_color_spec(color@),
        r matches Err(m) ==> m@ == color_error(field@, color@),
{
    let names: [&str; 16] = ["black", "red", "green", "yellow", "blue", "magenta", "cyan", "white", "dark_gray", "light_red", "light_green", "light_yellow", "light_blue", "light_magenta", "light_cyan", "gray"];
    assert(strs_view(names@) =~= theme_color_names());
    if is_one_of(color, &names) {
        return Ok(());
    }
    if is_hex_color(color) {
        return Ok(());
    }
    let mut m = String::from_str("Invalid color '");
    m.append(color);
    m.append("' for ");
    m.append(field);
    m.append(". Expected one of: ");
    m.append(COLOR_LIST);
    m.append(" or a hex color like #RRGGBB");
    Err(m)
}

/// A key-binding name split into its action and its bracketed parameters:
/// when the name has a `[` and a `]`, the text before the first `[` and
/// the text between it and the first `]`.
pub open spec fn action_parts(a: Seq<char>) -> (Seq<char>, Option<Seq<char>>) {
    match (find(a, seq!['[']), find(a, seq![']'])) {
        (Some(s), Some(e)) => (a.subrange(0, s), Some(a.subrange(s + 1, e))),
        _ => (a, None),
    }
}

/// Whether `action_parts` can cut `a`: a first `]` that comes before the
/// first `[` cannot be cut.
pub open spec fn action_cuttable(a: Seq<char>) -> bool {
    match (find(a, seq!['[']), find(a, seq![']'])) {
        (Some(s), Some(e)) => s < e,
        _ => true,
    }
}

/// Whether a key-binding name can be cut into action and parameters
/// (`action_cuttable`).
pub fn is_action_cuttable(action: &str) -> (r: bool)
    ensures
        r == action_cuttable(action@),
{
    let a = chars_of(action);
    let open: Vec<char> = vec!['['];
    let close: Vec<char> = vec![']'];
    assert(open@ =~= seq!['[']);
    assert(close@ =~= seq![']']);
    match (find_exec(&a, &open, 0), find_exec(&a, &close, 0)) {
        (Some(s), Some(e)) => s < e,
        _ => true,
    }
}

/// Splits a key-binding name into its action and its parameters.
pub fn parse_action_with_params(action: &str) -> (r: (String, Option<String>))
    requires
        action_cuttable(action@),
    ensures
        r.0@ == action_parts(action@).0,
        match action_parts(action@).1 {
            Some(p) => r.1 matches Some(q) && q@ == p,
            None => r.1 is None,
        },
{
    let a = chars_of(action);
    let open: Vec<char> = vec!['['];
    let close: Vec<char> = vec![']'];
    assert(open@ =~= seq!['[']);
    assert(close@ =~= seq![']']);
    proof {
        crate::text::lemma_find_from_bounds(a@, open@, 0);
        crate::text::lemma_find_from_bounds(a@, close@, 0);
    }
    if let Some(start) = find_exec(&a, &open, 0) {
        if let Some(end) = find_exec(&a, &close, 0) {
            let base = string_of(&slice_range(&a, 0, start));
            let params = string_of(&slice_range(&a, start + 1, end));
            return (base, Some(params));
        }
    }
    (action.to_owned(), None)
}

/// The largest `usize`.
pub open spec fn usize_max() -> nat {
    usize::MAX as nat
}

/// The number `str::parse::<usize>` reads from the trimmed `s`.
pub open spec fn parse_index(s: Seq<char>) -> Option<nat> {
    parse_unsigned(trim(s), usize_max())
}

/// What is wrong with the parameters `params` of the preview binding
/// `action` when there are `count` preview patterns, if anything.
pub open spec fn preview_params_error(action: Seq<char>, params: Option<Seq<char>>, count: nat) -> Option<
    Seq<char>,
> {
    match params {
        None => None,
        Some(p) => if p.len() == 0 {
            None
        } else if find(p, seq![',']) is Some {
            let parts = split(p, seq![',']);
            if parts.len() != 2 {
                Some(
                    "Invalid preview range '"@ + action
                        + "'. Expected format: preview[start,end]"@,
                )
            } else {
                match parse_index(parts[0]) {
                    None => Some("Invalid preview start index in '"@ + action + "'"@),
                    Some(start) => match parse_index(parts[1]) {
                        None => Some("Invalid preview end index in '"@ + action + "'"@),
                        Some(end) => if start >= count {
                            Some(
                                "Preview start index "@ + decimal(start) + " out of bounds (max: "@
                                    + decimal(count) + ")"@,
                            )
                        } else if end >= count {
                            Some(
                                "Preview end index "@ + decimal(end) + " out of bounds (max: "@
                                    + decimal(count) + ")"@,
                            )
                        } else if start > end {
                            Some(
                                "Preview range start ("@ + decimal(start) + ") must be <= end ("@
                                    + decimal(end) + ")"@,
                            )
                        } else {
                            None
                        },
                    },
                }
            }
        } else {
            match parse_index(p) {
                None => Some("Invalid preview index in '"@ + action + "'"@),
                Some(idx) => if idx >= count {
                    Some(
                        "Preview index "@ + decimal(idx) + " out of bounds (max: "@ + decimal(
                            count,
                        ) + ")"@,
                    )
                } else {
                    None
                },
            }
        },
    }
}

/// `str::parse::<usize>` on the trimmed `s`.
pub fn parse_index_exec(s: &[char]) -> (r: Option<usize>)
    ensures
        match parse_index(s@) {
            Some(v) => r == Some(v as usize) && v <= usize_max(),
            None => r is None,
        },
{
    let t = trim_chars(s);
    match parse_unsigned_exec(&t, usize::MAX as u64) {
        Some(v) => Some(v as usize),
        None => None,
    }
}

/// Checks the parameters of a preview binding: one index, or a range
/// `start,end`, within the `pattern_count` preview patterns.
pub fn validate_preview_params(action: &str, params: Option<&str>, pattern_count: usize) -> (r:
    Result<(), String>)
    ensures
        match preview_params_error(
            action@,
            match params {
                Some(p) => Some(p@),
                None => None,
            },
            pattern_count as nat,
        ) {
            None => r is Ok,
            Some(m) => r matches Err(e) && e@ == m,
        },
{
    let p = match params {
        None => return Ok(()),
        Some(p) => chars_of(p),
    };
    if p.len() == 0 {
        return Ok(());
    }
    let comma: Vec<char> = vec![','];
    assert(comma@ =~= seq![',']);
    if find_exec(&p, &comma, 0).is_some() {
        let parts = split_exec(&p, &comma);
        if parts.len() != 2 {
            let mut m = String::from_str("Invalid preview range '");
            m.append(action);
            m.append("'. Expected format: preview[start,end]");
            return Err(m);
        }
        let start = match parse_index_exec(&parts[0]) {
            Some(v) => v,
            None => {
                let mut m = String::from_str("Invalid preview start index in '");
                m.append(action);
                m.append("'");
                return Err(m);
            },
        };
        let end = match parse_index_exec(&parts[1]) {
            Some(v) => v,
            None => {
                let mut m = String::from_str("Invalid preview end index in '");
                m.append(action);
                m.append("'");
                return Err(m);
            },
        };
        if start >= pattern_count {
            let mut m = String::from_str("Preview start index ");
            m.append(decimal_text(start).as_str());
            m.append(" out of bounds (max: ");
            m.append(decimal_text(pattern_count).as_str());
            m.append(")");
            return Err(m);
        }
        if end >= pattern_count {
            let mut m = String::from_str("Preview end index ");
            m.append(decimal_text(end).as_str());
            m.append(" out of bounds (max: ");
            m.append(decimal_text(pattern_count).as_str());
            m.append(")");
            return Err(m);
        }
        if start > end {
            let mut m = String::from_str("Preview range start (");
            m.append(decimal_text(start).as_str());
            m.append(") must be <= end (");
            m.append(decimal_text(end).as_str());
            m.append(")");
            return Err(m);
        }
        Ok(())
    } else {
        let idx = match parse_index_exec(&p) {
            Some(v) => v,
            None => {
                let mut m = String::from_str("Invalid preview index in '");
                m.append(action);
                m.append("'");
                return Err(m);
            },
        };
        if idx >= pattern_count {
            let mut m = String::from_str("Preview index ");
            m.append(decimal_text(idx).as_str());
            m.append(" out of bounds (max: ");
            m.append(decimal_text(pattern_count).as_str());
            m.append(")");
            return Err(m);
        }
        Ok(())
    }
}

/// What the file system says of a configured path.
#[derive(Debug, Clone, Copy, PartialEq, Eq)]
pub struct PathFacts {
    pub exists: bool,
    pub is_file: bool,
    pub is_dir: bool,
}

/// What is wrong with the key-binding name `k`, if anything, when there
/// are `count` preview patterns.
pub open spec fn key_error(k: Seq<char>, count: nat) -> Option<Seq<char>> {
    let (base, params) = action_parts(k);
    if !keybinding_actions().contains(base) {
        Some("Unknown keybinding action '"@ + k + "' in config"@)
    } else if base == PREVIEW@ {
        preview_params_error(k, params, count)
    } else {
        None
    }
}

/// The first problem among the first `n` key-binding names.
pub open spec fn keys_error(keys: Seq<Seq<char>>, count: nat, n: int) -> Option<Seq<char>>
    decreases n,
{
    if n <= 0 {
        None
    } else {
        match keys_error(keys, count, n - 1) {
            Some(m) => Some(m),
            None => key_error(keys[n - 1], count),
        }
    }
}

/// Each colour setting of `t` with its name, in order.
pub open spec fn theme_colors(t: ThemeConfig) -> Seq<(Seq<char>, Seq<char>)> {
    seq![
        ("theme.selected_fg"@, t.selected_fg@),
        ("theme.selected_bg"@, t.selected_bg@),
        ("theme.highlight_fg"@, t.highlight_fg@),
        ("theme.status_bg"@, t.status_bg@),
        ("theme.status_fg"@, t.status_fg@),
        ("theme.status_search_bg"@, t.status_search_bg@),
        ("theme.status_search_fg"@, t.status_search_fg@),
        ("theme.help_key_fg"@, t.help_key_fg@),
        ("theme.help_key_bg"@, t.help_key_bg@),
        ("theme.help_desc_fg"@, t.help_desc_fg@),
        ("theme.help_desc_bg"@, t.help_desc_bg@),
        ("theme.entry_normal_fg"@, t.entry_normal_fg@),
        ("theme.entry_normal_bg"@, t.entry_normal_bg@),
        ("theme.entry_selected_fg"@, t.entry_selected_fg@),
        ("theme.entry_selected_bg"@, t.entry_selected_bg@),
        ("theme.entry_focused_fg"@, t.entry_focused_fg@),
        ("theme.entry_focused_bg"@, t.entry_focused_bg@),
        ("theme.list_title_fg"@, t.list_title_fg@),
        ("theme.list_title_bg"@, t.list_title_bg@),
        ("theme.list_border_fg"@, t.list_border_fg@),
        ("theme.list_border_bg"@, t.list_border_bg@),
        ("theme.cursor_bg"@, t.cursor_bg@),
        ("theme.search_match_fg"@, t.search_match_fg@),
        ("theme.search_match_bg"@, t.search_match_bg@),
        ("theme.preview_label_fg"@, t.preview_label_fg@),
        ("theme.preview_label_bg"@, t.preview_label_bg@),
        ("theme.preview_value_fg"@, t.preview_value_fg@),
        ("theme.preview_value_bg"@, t.preview_value_bg@),
    ]
}

/// The first colour among the first `n` of `cs` that is not valid.
pub open spec fn colors_error(cs: Seq<(Seq<char>, Seq<char>)>, n: int) -> Option<Seq<char>>
    decreases n,
{
    if n <= 0 {
        None
    } else {
        match colors_error(cs, n - 1) {
            Some(m) => Some(m),
            None => if theme_color_names().contains(cs[n - 1].1) || is_hex_color_spec(
                cs[n - 1].1,
            ) {
                None
            } else {
                Some(color_error(cs[n - 1].0, cs[n - 1].1))
            },
        }
    }
}

/// Whether the file name of `p` has the extension `bib` (`Path::extension`:
/// the name has a dot that is not its first character, and `bib` follows
/// the last dot).
pub open spec fn has_bib_extension(p: Seq<char>) -> bool {
    let name = after_last_slash(strip_tail(p));
    name.len() > 4 && ends_with(name, ".bib"@)
}

/// The texts of `v`.
pub open spec fn strings_view(v: Seq<String>) -> Seq<Seq<char>> {
    v.map_values(|s: String| s@)
}

/// What is wrong with the BibTeX file `p`, if anything.
pub open spec fn file_error(p: Seq<char>, f: PathFacts) -> Option<Seq<char>> {
    if !f.exists {
        Some("BibTeX file '"@ + p + "' does not exist"@)
    } else if !f.is_file {
        Some("BibTeX path '"@ + p + "' is not a file"@)
    } else if !has_bib_extension(p) {
        Some("BibTeX file '"@ + p + "' must have a .bib extension"@)
    } else {
        None
    }
}

/// The first problem among the first `n` BibTeX files.
pub open spec fn files_error(ps: Seq<Seq<char>>, fs: Seq<PathFacts>, n: int) -> Option<Seq<char>>
    decreases n,
{
    if n <= 0 {
        None
    } else {
        match files_error(ps, fs, n - 1) {
            Some(m) => Some(m),
            None => file_error(ps[n - 1], fs[n - 1]),
        }
    }
}

/// What is wrong with the notes directory `d`, if anything.
pub open spec fn notes_error(d: Seq<char>, f: PathFacts) -> Option<Seq<char>> {
    if !f.exists {
        Some("Notes directory '"@ + d + "' does not exist"@)
    } else if !f.is_dir {
        Some("Notes path '"@ + d + "' is not a directory"@)
    } else {
        None
    }
}

/// What is wrong with the template file `t`, if anything.
pub open spec fn template_error(t: Seq<char>, f: PathFacts) -> Option<Seq<char>> {
    if !f.exists {
        Some("Template file '"@ + t + "' does not exist"@)
    } else if !f.is_file {
        Some("Template path '"@ + t + "' is not a file"@)
    } else {
        None
    }
}

/// The first of two possible problems.
pub open spec fn first_error(a: Option<Seq<char>>, b: Option<Seq<char>>) -> Option<Seq<char>> {
    match a {
        Some(m) => Some(m),
        None => b,
    }
}

/// The names of the key bindings of `c`, in order.
pub open spec fn binding_names(c: Config) -> Seq<Seq<char>> {
    c.keybindings@.map_values(|p: (Seq<char>, Seq<char>)| p.0)
}

/// The first problem with the settings `c`, given what the file system says
/// of its BibTeX files, its notes directory and its template file: unknown
/// key-binding actions and bad preview parameters, then invalid colours,
/// then the paths.
pub open spec fn config_error(
    c: Config,
    files: Seq<PathFacts>,
    notes: PathFacts,
    template: Option<PathFacts>,
) -> Option<Seq<char>> {
    first_error(
        keys_error(binding_names(c), c.preview.patterns@.len(), c.keybindings@.len() as int),
        first_error(
            colors_error(theme_colors(c.theme), 28),
            first_error(
                files_error(
                    strings_view(c.bibtex_files@),
                    files,
                    c.bibtex_files@.len() as int,
                ),
                first_error(
                    notes_error(c.notes.notes_dir@, notes),
                    match (c.notes.template_file, template) {
                        (Some(t), Some(f)) => template_error(t@, f),
                        _ => None,
                    },
                ),
            ),
        ),
    )
}

proof fn lemma_keys_error_none(keys: Seq<Seq<char>>, count: nat, n: int)
    requires
        0 <= n <= keys.len(),
    ensures
        keys_error(keys, count, n) is None <==> forall|k: int| 0 <= k < n ==> (#[trigger] key_error(keys[k], count)) is None,
    decreases n,
{
    if n > 0 {
        lemma_keys_error_none(keys, count, n - 1);
    }
}

proof fn lemma_colors_error_none(cs: Seq<(Seq<char>, Seq<char>)>, n: int)
    requires
        0 <= n <= cs.len(),
    ensures
        colors_error(cs, n) is None <==> forall|k: int|
            0 <= k < n ==> theme_color_names().contains(#[trigger] cs[k].1) || is_hex_color_spec(cs[k].1),
    decreases n,
{
    if n > 0 {
        lemma_colors_error_none(cs, n - 1);
    }
}

proof fn lemma_files_error_none(ps: Seq<Seq<char>>, fs: Seq<PathFacts>, n: int)
    requires
        0 <= n <= ps.len(),
        n <= fs.len(),
    ensures
        files_error(ps, fs, n) is None <==> forall|k: int| 0 <= k < n ==> (#[trigger] file_error(ps[k], fs[k])) is None,
    decreases n,
{
    if n > 0 {
        lemma_files_error_none(ps, fs, n - 1);
    }
}

/// Settings are valid exactly when every key binding names a known action
/// (a preview binding with parameters that fit the preview patterns), every
/// one of the 28 theme colours is a colour name or `#RRGGBB`, every BibTeX
/// file exists, is a file and ends in `.bib`, the notes directory exists
/// and is a directory, and the template file, when one is set, exists and
/// is a file.
pub proof fn lemma_config_valid_iff(c: Config, files: Seq<PathFacts>, notes: PathFacts, template: Option<PathFacts>)
    requires
        files.len() == c.bibtex_files@.len(),
    ensures
        config_error(c, files, notes, template) is None <==> {
            &&& forall|k: int|
                0 <= k < c.keybindings@.len() ==> (#[trigger] key_error(
                    binding_names(c)[k],
                    c.preview.patterns@.len(),
                )) is None
            &&& forall|k: int|
                0 <= k < 28 ==> theme_color_names().contains(#[trigger] theme_colors(c.theme)[k].1)
                    || is_hex_color_spec(theme_colors(c.theme)[k].1)
            &&& forall|k: int|
                0 <= k < files.len() ==> (#[trigger] file_error(strings_view(c.bibtex_files@)[k], files[k])) is None
            &&& notes_error(c.notes.notes_dir@, notes) is None
            &&& (match (c.notes.template_file, template) {
                (Some(t), Some(f)) => template_error(t@, f),
                _ => None,
            }) is None
        },
{
    lemma_keys_error_none(binding_names(c), c.preview.patterns@.len(), c.keybindings@.len() as int);
    assert(theme_colors(c.theme).len() == 28);
    lemma_colors_error_none(theme_colors(c.theme), 28);
    lemma_files_error_none(strings_view(c.bibtex_files@), files, c.bibtex_files@.len() as int);
}

/// The checks of one key-binding name.
fn check_key(k: &str, count: usize) -> (r: Result<(), String>)
    requires
        action_cuttable(k@),
    ensures
        match key_error(k@, count as nat) {
            None => r is Ok,
            Some(m) => r matches Err(e) && e@ == m,
        },
{
    let (base, params) = parse_action_with_params(k);
    let actions: [&str; 15] = [UP, DOWN, SEARCH, QUIT, EDIT, NOTE, PDF, COPY, SORT_YEAR, SORT_AUTHOR, PREVIEW, PAGE_UP, PAGE_DOWN, GOTO_TOP, GOTO_BOTTOM];
    assert(strs_view(actions@) =~= keybinding_actions());
    if !is_one_of(base.as_str(), &actions) {
        let mut m = String::from_str("Unknown keybinding action '");
        m.append(k);
        m.append("' in config");
        return Err(m);
    }
    if chars_eq(&chars_of(base.as_str()), &chars_of(PREVIEW)) {
        match params {
            Some(p) => validate_preview_params(k, Some(p.as_str()), count),
            None => validate_preview_params(k, None, count),
        }
    } else {
        Ok(())
    }
}

/// Whether `p`'s file name has the extension `bib`.
fn bib_extension_exec(p: &str) -> (r: bool)
    ensures
        r == has_bib_extension(p@),
{
    let c = chars_of(p);
    let mut end = c.len();
    let ghost full = c@;
    assert(full.subrange(0, end as int) =~= full);
    loop
        invariant
            end <= c@.len(),
            full == c@,
            strip_tail(full) == strip_tail(full.subrange(0, end as int)),
        ensures
            end <= c@.len(),
            strip_tail(full) == full.subrange(0, end as int),
        decreases end,
    {
        if end > 0 && c[end - 1] == '/' {
            assert(full.subrange(0, end as int).drop_last() =~= full.subrange(0, end - 1));
            end -= 1;
        } else if end >= 2 && c[end - 2] == '/' && c[end - 1] == '.' {
            assert(full.subrange(0, end as int).drop_last().drop_last() =~= full.subrange(0, end - 2));
            end -= 2;
        } else {
            assert(strip_tail(full.subrange(0, end as int)) == full.subrange(0, end as int));
            break;
        }
    }
    let mut start = end;
    let ghost q = full.subrange(0, end as int);
    assert(q.subrange(end as int, end as int) =~= Seq::<char>::empty());
    assert(q.subrange(0, end as int) =~= q);
    while start > 0 && c[start - 1] != '/'
        invariant
            start <= end <= c@.len(),
            q == full.subrange(0, end as int),
            full == c@,
            after_last_slash(q) == after_last_slash(q.subrange(0, start as int)) + q.subrange(
                start as int,
                end as int,
            ),
        decreases start,
    {
        assert(q.subrange(0, start as int).drop_last() =~= q.subrange(0, start - 1));
        assert(q.subrange(start - 1, end as int) =~= seq![q[start - 1]] + q.subrange(start as int, end as int));
        assert(after_last_slash(q.subrange(0, start as int)) == after_last_slash(q.subrange(0, start - 1)).push(q[start - 1]));
        assert(after_last_slash(q.subrange(0, start - 1)).push(q[start - 1]) + q.subrange(start as int, end as int) =~= after_last_slash(q.subrange(0, start - 1)) + q.subrange(start - 1, end as int));
        start -= 1;
    }
    assert(after_last_slash(q.subrange(0, start as int)) =~= Seq::<char>::empty());
    let name = slice_range(&c, start, end);
    assert(name@ =~= after_last_slash(strip_tail(p@)));
    let ext: Vec<char> = vec!['.', 'b', 'i', 'b'];
    proof {
        reveal_strlit(".bib");
        assert(ext@ =~= ".bib"@);
    }
    name.len() > 4 && ends_with_exec(&name, &ext)
}

impl Config {
    /// Checks the settings: every key binding names a known action (and a
    /// preview binding's parameters are valid), every colour is valid, and
    /// the BibTeX files, the notes directory and the template file exist
    /// and are of the right kind, as `files`, `notes` and `template` report.
    /// The first problem found is the error.
    pub fn validate(&self, files: &[PathFacts], notes: PathFacts, template: Option<PathFacts>) -> (r:
        Result<(), String>)
        requires
            files@.len() == self.bibtex_files@.len(),
            self.notes.template_file is Some ==> template is Some,
            forall|i: int|
                0 <= i < self.keybindings@.len() ==> action_cuttable(
                    #[trigger] self.keybindings@[i].0,
                ),
        ensures
            match config_error(*self, files@, notes, template) {
                None => r is Ok,
                Some(m) => r matches Err(e) && e@ == m,
            },
    {
        let ghost keys = binding_names(*self);
        let count = self.preview.patterns.len();
        let mut i: usize = 0;
        while i < self.keybindings.len()
            invariant
                i <= self.keybindings@.len(),
                keys == binding_names(*self),
                count == self.preview.patterns@.len(),
                forall|k: int|
                    0 <= k < self.keybindings@.len() ==> action_cuttable(
                        #[trigger] self.keybindings@[k].0,
                    ),
                keys_error(keys, count as nat, i as int) is None,
            decreases self.keybindings@.len() - i,
        {
            let k = self.keybindings.key_at(i);
            assert(keys[i as int] == k@);
            match check_key(k.as_str(), count) {
                Ok(()) => {},
                Err(m) => {
                    proof {
                        lemma_first_error_sticky_keys(keys, count as nat, i + 1, keys.len() as int);
                    }
                    return Err(m);
                },
            }
            i += 1;
        }
        assert(keys_error(binding_names(*self), self.preview.patterns@.len(), self.keybindings@.len() as int) is None);
        let colors = self.theme.named_colors();
        let ghost cs = theme_colors(self.theme);
        assert forall|k: int| 0 <= k < 28 implies (#[trigger] colors@[k]).0@ == cs[k].0 && colors@[k].1@ == cs[k].1 by {}
        let mut j: usize = 0;
        while j < colors.len()
            invariant
                j <= 28,
                colors@.len() == 28,
                cs == theme_colors(self.theme),
                forall|k: int| 0 <= k < 28 ==> (#[trigger] colors@[k]).0@ == cs[k].0 && colors@[k].1@ == cs[k].1,
                colors_error(cs, j as int) is None,
                keys_error(binding_names(*self), self.preview.patterns@.len(), self.keybindings@.len() as int) is None,
            decreases colors.len() - j,
        {
            match validate_theme_color(colors[j].0.as_str(), colors[j].1.as_str()) {
                Ok(()) => {},
                Err(m) => {
                    proof {
                        assert(colors_error(cs, j + 1) == Some(color_error(cs[j as int].0, cs[j as int].1)));
                        lemma_first_error_sticky_colors(cs, j + 1, 28);
                        assert(keys_error(binding_names(*self), self.preview.patterns@.len(), self.keybindings@.len() as int) is None);
                    }
                    return Err(m);
                },
            }
            j += 1;
        }
        let ghost ps = strings_view(self.bibtex_files@);
        let mut f: usize = 0;
        while f < self.bibtex_files.len()
            invariant
                f <= self.bibtex_files@.len(),
                files@.len() == self.bibtex_files@.len(),
                ps == strings_view(self.bibtex_files@),
                files_error(ps, files@, f as int) is None,
                keys_error(binding_names(*self), self.preview.patterns@.len(), self.keybindings@.len() as int) is None,
                colors_error(theme_colors(self.theme), 28) is None,
            decreases self.bibtex_files.len() - f,
        {
            let p = self.bibtex_files[f].as_str();
            let facts = files[f];
            assert(ps[f as int] == p@);
            let mut m = String::new();
            if !facts.exists {
                m.append("BibTeX file '");
                m.append(p);
                m.append("' does not exist");
            } else if !facts.is_file {
                m.append("BibTeX path '");
                m.append(p);
                m.append("' is not a file");
            } else if !bib_extension_exec(p) {
                m.append("BibTeX file '");
                m.append(p);
                m.append("' must have a .bib extension");
            } else {
                f += 1;
                continue;
            }
            proof {
                assert(m@ == file_error(ps[f as int], files@[f as int])->Some_0);
                lemma_first_error_sticky_files(ps, files@, f + 1, ps.len() as int);
            }
            return Err(m);
        }
        let d = self.notes.notes_dir.as_str();
        if !notes.exists {
            let mut m = String::from_str("Notes directory '");
            m.append(d);
            m.append("' does not exist");
            return Err(m);
        }
        if !notes.is_dir {
            let mut m = String::from_str("Notes path '");
            m.append(d);
            m.append("' is not a directory");
            return Err(m);
        }
        if let Some(t) = &self.notes.template_file {
            if let Some(tf) = template {
                if !tf.exists {
                    let mut m = String::from_str("Template file '");
                    m.append(t.as_str());
                    m.append("' does not exist");
                    return Err(m);
                }
                if !tf.is_file {
                    let mut m = String::from_str("Template path '");
                    m.append(t.as_str());
                    m.append("' is not a file");
                    return Err(m);
                }
            }
        }
        Ok(())
    }
}

proof fn lemma_first_error_sticky_keys(keys: Seq<Seq<char>>, count: nat, j: int, n: int)
    requires
        0 <= j <= n,
        keys_error(keys, count, j) is Some,
    ensures
        keys_error(keys, count, n) == keys_error(keys, count, j),
    decreases n - j,
{
    if j < n {
        lemma_first_error_sticky_keys(keys, count, j + 1, n);
    }
}

proof fn lemma_first_error_sticky_colors(cs: Seq<(Seq<char>, Seq<char>)>, j: int, n: int)
    requires
        0 <= j <= n,
        colors_error(cs, j) is Some,
    ensures
        colors_error(cs, n) == colors_error(cs, j),
    decreases n - j,
{
    if j < n {
        lemma_first_error_sticky_colors(cs, j + 1, n);
    }
}

proof fn lemma_first_error_sticky_files(ps: Seq<Seq<char>>, fs: Seq<PathFacts>, j: int, n: int)
    requires
        0 <= j <= n,
        files_error(ps, fs, j) is Some,
    ensures
        files_error(ps, fs, n) == files_error(ps, fs, j),
    decreases n - j,
{
    if j < n {
        lemma_first_error_sticky_files(ps, fs, j + 1, n);
    }
}

} // verus!
