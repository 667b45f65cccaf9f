//! The interface's state machine: the list of matching entries, the
//! selection and scrolling, the search line, sorting and the preview, and
//! how each key and mouse event changes them.
use vstd::prelude::*;

use crate::cli::{title_or, year_or};
use crate::config::validate::{action_cuttable, action_parts, parse_action_with_params, parse_index, parse_index_exec};
use crate::config::{Config, PreviewPattern};
use crate::domain::sort::nat_order;
use crate::domain::{has_id, id_index, Bibliography, Entry, EntryId};
use crate::search::{parse_terms, search_fits, search_outcome, Query, QueryTerm, SearchEngine, TermView, terms_view, results_view};
use crate::sorting::{lemma_stable_sort_map, sort_by_le, stable_sort};
use crate::text::{chars_eq, chars_of, decimal, decimal_text, find, find_exec, lex_order, lex_order_exec, lower_seq, split, split_exec, string_of, to_ascii_lower};
use super::text::{field_or, field_text, format_preview_with_template, pad_to_display_width, padded, preview_text, truncate_with_ellipsis, truncated};
use crate::text::{trim, trim_chars};
use super::{ActionRequest, Key, KeyCode, Mode, Mouse, MouseKind, SortField, TuiEffect, sort_label};

verus! {

/// A request to the action handler, abstractly.
pub enum RequestView {
    OpenPdf(Seq<char>),
    CopyCitekey(Seq<char>),
}

/// An effect, abstractly.
pub enum EffectView {
    Continue,
    Quit,
    Select(Seq<char>),
    EditEntry(Seq<char>),
    OpenNote(Seq<char>),
}

/// The abstract state of the interface.
#[verifier::ext_equal]
pub struct AppView {
    pub query: Seq<char>,
    /// The cursor in the search line, in characters.
    pub cursor: nat,
    pub selected: nat,
    /// The citation keys of the listed entries, in order.
    pub filtered: Seq<Seq<char>>,
    pub mode: Mode,
    pub sort_field: Option<SortField>,
    pub status: Seq<char>,
    pub scroll: nat,
    pub list_height: nat,
    pub pending_g: bool,
    pub preview: Option<nat>,
    pub request: Option<RequestView>,
}

/// What the interface reads but never changes: the entries, the key
/// bindings (action to key), the preview patterns and the search settings.
pub struct Ctx {
    pub entries: Seq<Entry>,
    pub bindings: Seq<(Seq<char>, Seq<char>)>,
    pub patterns: Seq<PreviewPattern>,
    pub smart: bool,
    pub fuzzy: bool,
}

pub open spec fn effect_view(e: TuiEffect) -> EffectView {
    match e {
        TuiEffect::Continue => EffectView::Continue,
        TuiEffect::Quit => EffectView::Quit,
        TuiEffect::Select(id) => EffectView::Select(id.0@),
        TuiEffect::EditEntry(id) => EffectView::EditEntry(id.0@),
        TuiEffect::OpenNote(id) => EffectView::OpenNote(id.0@),
    }
}

pub open spec fn request_view(r: ActionRequest) -> RequestView {
    match r {
        ActionRequest::OpenPdf(id) => RequestView::OpenPdf(id.0@),
        ActionRequest::CopyCitekey(id) => RequestView::CopyCitekey(id.0@),
    }
}

// ---------------------------------------------------------------------------
// Which entries are listed, and in what order.
// ---------------------------------------------------------------------------

/// The first entry of `es`, from position `i` on, with citation key `id`.
pub open spec fn lookup_from(es: Seq<Entry>, id: Seq<char>, i: int) -> Option<Entry>
    decreases es.len() - i,
{
    if i < 0 || i >= es.len() {
        None
    } else if es[i].id.0@ == id {
        Some(es[i])
    } else {
        lookup_from(es, id, i + 1)
    }
}

/// The entry with citation key `id`, if there is one.
pub open spec fn lookup(es: Seq<Entry>, id: Seq<char>) -> Option<Entry> {
    lookup_from(es, id, 0)
}

/// The year that sorting by year uses: the entry's, or zero.
pub open spec fn year_key(o: Option<Entry>) -> nat {
    match o {
        Some(e) => match e.year_value() {
            Some(y) => y,
            None => 0,
        },
        None => 0,
    }
}

/// The lower-cased field `name`, or the empty text.
pub open spec fn text_key(o: Option<Entry>, name: Seq<char>) -> Seq<char> {
    match o {
        Some(e) => lower_seq(field_or(e, name, Seq::empty())),
        None => Seq::empty(),
    }
}

/// The order of the listed entries `a` and `b` (by citation key) for the
/// sort key `f`: by year newest first, then author; by author, then title;
/// by journal, then author; ties by citation key.
pub open spec fn list_order(es: Seq<Entry>, a: Seq<char>, b: Seq<char>, f: SortField) -> int {
    let la = lookup(es, a);
    let lb = lookup(es, b);
    let (c1, c2) = match f {
        SortField::Year => (
            nat_order(year_key(lb), year_key(la)),
            lex_order(text_key(la, "author"@), text_key(lb, "author"@)),
        ),
        SortField::Author => (
            lex_order(text_key(la, "author"@), text_key(lb, "author"@)),
            lex_order(text_key(la, "title"@), text_key(lb, "title"@)),
        ),
        SortField::Journal => (
            lex_order(text_key(la, "journal"@), text_key(lb, "journal"@)),
            lex_order(text_key(la, "author"@), text_key(lb, "author"@)),
        ),
    };
    if c1 != 0 {
        c1
    } else if c2 != 0 {
        c2
    } else {
        lex_order(a, b)
    }
}

/// "Comes no later than" in the list sorted by `f`.
pub open spec fn list_le(es: Seq<Entry>, f: SortField) -> spec_fn(Seq<char>, Seq<char>) -> bool {
    |a: Seq<char>, b: Seq<char>| list_order(es, a, b, f) <= 0
}

/// The citation keys that match `query`, ranked; none when the query does
/// not fit the matcher's limits.
pub open spec fn result_ids(c: Ctx, query: Seq<char>) -> Seq<Seq<char>> {
    let ts = parse_terms(query);
    if search_fits(c.entries, ts) {
        search_outcome(c.entries, ts, c.smart, c.fuzzy).map_values(|r: (Seq<char>, u32)| r.0)
    } else {
        Seq::empty()
    }
}

/// The listed citation keys: the results, stably sorted when a sort key
/// is chosen.
pub open spec fn ordered_ids(c: Ctx, query: Seq<char>, sort: Option<SortField>) -> Seq<Seq<char>> {
    match sort {
        None => result_ids(c, query),
        Some(f) => stable_sort(result_ids(c, query), list_le(c.entries, f)),
    }
}

/// The first position of `id` in `ids` from position `i` on.
pub open spec fn first_index_from(ids: Seq<Seq<char>>, id: Seq<char>, i: int) -> Option<nat>
    decreases ids.len() - i,
{
    if i < 0 || i >= ids.len() {
        None
    } else if ids[i] == id {
        Some(i as nat)
    } else {
        first_index_from(ids, id, i + 1)
    }
}

/// The first position of `id` in `ids`.
pub open spec fn first_index(ids: Seq<Seq<char>>, id: Seq<char>) -> Option<nat> {
    first_index_from(ids, id, 0)
}

pub proof fn lemma_first_index_from(ids: Seq<Seq<char>>, id: Seq<char>, i: int)
    requires
        0 <= i,
    ensures
        first_index_from(ids, id, i) matches Some(k) ==> i <= k < ids.len(),
    decreases ids.len() - i,
{
    if i < ids.len() && ids[i] != id {
        lemma_first_index_from(ids, id, i + 1);
    }
}

/// The citation key under the selection.
pub open spec fn selected_id(v: AppView) -> Option<Seq<char>> {
    if v.selected < v.filtered.len() {
        Some(v.filtered[v.selected as int])
    } else {
        None
    }
}

// ---------------------------------------------------------------------------
// Selection and scrolling.
// ---------------------------------------------------------------------------

/// The state scrolled so that the selection is inside the window of
/// `list_height` rows (at least one).
pub open spec fn ensure_visible(v: AppView) -> AppView {
    if v.filtered.len() == 0 {
        AppView { scroll: 0, ..v }
    } else {
        let s1 = if v.selected < v.scroll {
            v.selected
        } else {
            v.scroll
        };
        let window: nat = if v.list_height >= 1 {
            v.list_height
        } else {
            1
        };
        let s2 = if v.selected >= s1 + window {
            (v.selected + 1 - window) as nat
        } else {
            s1
        };
        AppView { scroll: s2, ..v }
    }
}

/// The list recomputed for the current query and sort key; the entry that
/// was selected stays selected when it is still listed, else the first is.
pub open spec fn refresh(v: AppView, c: Ctx) -> AppView {
    let ids = ordered_ids(c, v.query, v.sort_field);
    let sel: nat = match selected_id(v) {
        Some(id) => match first_index(ids, id) {
            Some(i) => i,
            None => 0,
        },
        None => 0,
    };
    if ids.len() == 0 {
        AppView { filtered: ids, selected: 0, scroll: 0, ..v }
    } else {
        ensure_visible(AppView { filtered: ids, selected: sel, ..v })
    }
}

/// The selection moved down by `n`, stopping at the last entry.
pub open spec fn move_down(v: AppView, n: nat) -> AppView {
    if v.filtered.len() == 0 {
        v
    } else {
        let s = if v.selected + n < v.filtered.len() {
            v.selected + n
        } else {
            (v.filtered.len() - 1) as nat
        };
        ensure_visible(AppView { selected: s as nat, ..v })
    }
}

/// The selection moved up by `n`, stopping at the first entry.
pub open spec fn move_up(v: AppView, n: nat) -> AppView {
    let s: nat = if v.selected >= n {
        (v.selected - n) as nat
    } else {
        0
    };
    ensure_visible(AppView { selected: s, ..v })
}

/// How far a page moves: one row less than the window, at least one.
pub open spec fn page_step(v: AppView) -> nat {
    if v.list_height >= 2 {
        (v.list_height - 1) as nat
    } else {
        1
    }
}

/// The first entry selected.
pub open spec fn move_to_top(v: AppView) -> AppView {
    ensure_visible(AppView { selected: 0, ..v })
}

/// The last entry selected.
pub open spec fn move_to_bottom(v: AppView) -> AppView {
    let s: nat = if v.filtered.len() == 0 {
        0
    } else {
        (v.filtered.len() - 1) as nat
    };
    ensure_visible(AppView { selected: s, ..v })
}

// ---------------------------------------------------------------------------
// Modes, actions and the preview.
// ---------------------------------------------------------------------------

/// `"No entry selected"`.
pub open spec fn no_selection() -> Seq<char> {
    "No entry selected"@
}

/// The state in `mode` with the status `status`.
pub open spec fn with_mode(v: AppView, mode: Mode, status: Seq<char>) -> AppView {
    AppView { mode, status, ..v }
}

/// The list sorted by `f`, back in normal mode.
pub open spec fn apply_sort(v: AppView, c: Ctx, f: SortField) -> AppView {
    let w = refresh(AppView { sort_field: Some(f), mode: Mode::Normal, ..v }, c);
    AppView { status: "Sorted by "@ + sort_label(f), ..w }
}

/// Asks for the PDF of the selected entry to be opened.
pub open spec fn pdf_step(v: AppView, c: Ctx) -> AppView {
    match selected_id(v) {
        Some(id) => if has_id(c.entries, id) {
            AppView { request: Some(RequestView::OpenPdf(id)), ..v }
        } else {
            AppView { status: no_selection(), ..v }
        },
        None => AppView { status: no_selection(), ..v },
    }
}

/// Asks for the selected citation key to be copied.
pub open spec fn copy_step(v: AppView) -> AppView {
    match selected_id(v) {
        Some(id) => AppView { request: Some(RequestView::CopyCitekey(id)), ..v },
        None => AppView { status: no_selection(), ..v },
    }
}

/// Asks for the selected citation key to be copied and then leaves the
/// interface; with nothing selected, says so and stays.
pub open spec fn copy_quit_step(v: AppView) -> (AppView, EffectView) {
    match selected_id(v) {
        Some(id) => (AppView { request: Some(RequestView::CopyCitekey(id)), ..v }, EffectView::Quit),
        None => (AppView { status: no_selection(), ..v }, EffectView::Continue),
    }
}

/// The effect of asking to edit (or, with `note`, to take notes on) the
/// selected entry.
pub open spec fn entry_effect_step(v: AppView, note: bool) -> (AppView, EffectView) {
    match selected_id(v) {
        Some(id) => (v, if note {
            EffectView::OpenNote(id)
        } else {
            EffectView::EditEntry(id)
        }),
        None => (AppView { status: no_selection(), ..v }, EffectView::Continue),
    }
}

/// The preview index read from `p`, or `default`.
pub open spec fn index_or(p: Seq<char>, default: nat) -> nat {
    match parse_index(p) {
        Some(i) => i,
        None => default,
    }
}

/// Which preview pattern shows after the preview key with parameters
/// `params`, when there are `count > 0` patterns: without parameters the
/// next one, or none after the last; with `start,end` the next one up to
/// `end`, starting at `start`; with one index that pattern, or none when
/// it already shows.
pub open spec fn next_preview(cur: Option<nat>, params: Option<Seq<char>>, count: nat) -> Option<nat> {
    match params {
        None => match cur {
            None => Some(0),
            Some(i) => if i + 1 < count {
                Some(i + 1)
            } else {
                None
            },
        },
        Some(p) => if find(p, seq![',']) is Some {
            let parts = split(p, seq![',']);
            if parts.len() == 2 {
                let start = index_or(parts[0], 0);
                let end = index_or(parts[1], (count - 1) as nat);
                match cur {
                    None => Some(start),
                    Some(i) => if i < end {
                        Some(
                            if i + 1 <= end {
                                i + 1
                            } else {
                                end
                            },
                        )
                    } else {
                        None
                    },
                }
            } else {
                cur
            }
        } else {
            match parse_index(p) {
                Some(idx) => if cur == Some(idx) {
                    None
                } else {
                    Some(
                        if idx <= count - 1 {
                            idx
                        } else {
                            (count - 1) as nat
                        },
                    )
                },
                None => cur,
            }
        },
    }
}

/// A pattern's name, or `Preview`.
pub open spec fn pattern_name(p: PreviewPattern) -> Seq<char> {
    match p.name {
        Some(n) => n@,
        None => "Preview"@,
    }
}

/// The status line after the preview changed: off, or the pattern's name
/// (`Preview` without one) and its place among the patterns.
pub open spec fn preview_status(p: Option<nat>, patterns: Seq<PreviewPattern>) -> Seq<char> {
    match p {
        None => "Preview off"@,
        Some(i) => pattern_name(patterns[i as int]) + " "@ + decimal(i + 1) + "/"@ + decimal(
            patterns.len(),
        ),
    }
}

/// The preview key pressed with parameters `params`.
pub open spec fn toggle_preview(v: AppView, c: Ctx, params: Option<Seq<char>>) -> AppView {
    let count = c.patterns.len();
    if count == 0 {
        AppView { preview: None, status: "No preview patterns configured"@, ..v }
    } else {
        let p = next_preview(v.preview, params, count);
        AppView { preview: p, status: preview_status(p, c.patterns), ..v }
    }
}

/// The first action, from position `i` on, bound to the key named `name`.
pub open spec fn binding_action_from(bs: Seq<(Seq<char>, Seq<char>)>, name: Seq<char>, i: int) -> Option<
    Seq<char>,
>
    decreases bs.len() - i,
{
    if i < 0 || i >= bs.len() {
        None
    } else if bs[i].1 == name {
        Some(bs[i].0)
    } else {
        binding_action_from(bs, name, i + 1)
    }
}

/// The first action bound to the key named `name`.
pub open spec fn binding_action(bs: Seq<(Seq<char>, Seq<char>)>, name: Seq<char>) -> Option<Seq<char>> {
    binding_action_from(bs, name, 0)
}

pub proof fn lemma_binding_action_from(bs: Seq<(Seq<char>, Seq<char>)>, name: Seq<char>, i: int)
    requires
        0 <= i,
    ensures
        binding_action_from(bs, name, i) matches Some(a) ==> exists|j: int|
            i <= j < bs.len() && #[trigger] bs[j].0 == a,
    decreases bs.len() - i,
{
    if i < bs.len() && bs[i].1 != name {
        lemma_binding_action_from(bs, name, i + 1);
    }
}

/// What a bound action does.
pub open spec fn action_step(v: AppView, c: Ctx, action: Seq<char>) -> (AppView, EffectView) {
    let (base, params) = action_parts(action);
    if base == "quit"@ {
        (v, EffectView::Quit)
    } else if base == "up"@ {
        (move_up(v, 1), EffectView::Continue)
    } else if base == "down"@ {
        (move_down(v, 1), EffectView::Continue)
    } else if base == "page_up"@ {
        (move_up(v, page_step(v)), EffectView::Continue)
    } else if base == "page_down"@ {
        (move_down(v, page_step(v)), EffectView::Continue)
    } else if base == "goto_top"@ {
        (move_to_top(v), EffectView::Continue)
    } else if base == "goto_bottom"@ {
        (move_to_bottom(v), EffectView::Continue)
    } else if base == "search"@ {
        (with_mode(v, Mode::Searching, "Search mode"@), EffectView::Continue)
    } else if base == "sort_year"@ {
        (apply_sort(v, c, SortField::Year), EffectView::Continue)
    } else if base == "sort_author"@ {
        (apply_sort(v, c, SortField::Author), EffectView::Continue)
    } else if base == "preview"@ {
        (toggle_preview(v, c, params), EffectView::Continue)
    } else if base == "copy"@ {
        (copy_step(v), EffectView::Continue)
    } else if base == "pdf"@ {
        (pdf_step(v, c), EffectView::Continue)
    } else if base == "edit"@ {
        entry_effect_step(v, false)
    } else if base == "note"@ {
        entry_effect_step(v, true)
    } else {
        (v, EffectView::Continue)
    }
}

/// A key in normal mode: a bound action first; else Control-d and
/// Control-u page; else the built-in keys.
pub open spec fn normal_step(v: AppView, c: Ctx, k: Key) -> (AppView, EffectView) {
    let v1 = if v.pending_g && k.code != KeyCode::Char('g') {
        AppView { pending_g: false, ..v }
    } else {
        v
    };
    match binding_action(c.bindings, super::text::binding_name(k)) {
        Some(a) => action_step(v1, c, a),
        None => if k.ctrl && k.code == KeyCode::Char('d') {
            (move_down(v1, page_step(v1)), EffectView::Continue)
        } else if k.ctrl && k.code == KeyCode::Char('u') {
            (move_up(v1, page_step(v1)), EffectView::Continue)
        } else {
            match k.code {
                KeyCode::Char('q') => (v1, EffectView::Quit),
                KeyCode::Char('j') | KeyCode::Down => (move_down(v1, 1), EffectView::Continue),
                KeyCode::Char('k') | KeyCode::Up => (move_up(v1, 1), EffectView::Continue),
                KeyCode::Char('g') => if v1.pending_g {
                    (move_to_top(AppView { pending_g: false, ..v1 }), EffectView::Continue)
                } else {
                    (AppView { pending_g: true, ..v1 }, EffectView::Continue)
                },
                KeyCode::Char('G') => (move_to_bottom(v1), EffectView::Continue),
                KeyCode::Char('/') => (with_mode(v1, Mode::Searching, "Search mode"@), EffectView::Continue),
                KeyCode::Enter => match selected_id(v1) {
                    Some(id) => (v1, EffectView::Select(id)),
                    None => (v1, EffectView::Continue),
                },
                KeyCode::Char('e') => entry_effect_step(v1, false),
                KeyCode::Char('n') => entry_effect_step(v1, true),
                KeyCode::Char('p') => (pdf_step(v1, c), EffectView::Continue),
                KeyCode::Char('y') => (copy_step(v1), EffectView::Continue),
                KeyCode::Char('Y') => copy_quit_step(v1),
                KeyCode::Char('s') => (with_mode(v1, Mode::Sorting, "Sort mode"@), EffectView::Continue),
                KeyCode::Char('i') => (toggle_preview(v1, c, None), EffectView::Continue),
                _ => (v1, EffectView::Continue),
            }
        }
    }
}

/// A key in search mode: editing the query at the cursor (the list
/// follows each change), moving the cursor, or leaving the mode.
pub open spec fn search_step(v: AppView, c: Ctx, k: Key) -> AppView {
    match k.code {
        KeyCode::Esc | KeyCode::Enter => AppView {
            mode: Mode::Normal,
            cursor: 0,
            status: if v.query.len() == 0 {
                "Search cleared"@
            } else {
                decimal(v.filtered.len()) + " result(s)"@
            },
            ..v
        },
        KeyCode::Backspace => if v.cursor > 0 {
            refresh(
                AppView {
                    cursor: (v.cursor - 1) as nat,
                    query: v.query.remove(v.cursor - 1),
                    ..v
                },
                c,
            )
        } else {
            v
        },
        KeyCode::Delete => if v.cursor < v.query.len() {
            refresh(AppView { query: v.query.remove(v.cursor as int), ..v }, c)
        } else {
            v
        },
        KeyCode::Left => if v.cursor > 0 {
            AppView { cursor: (v.cursor - 1) as nat, ..v }
        } else {
            v
        },
        KeyCode::Right => if v.cursor < v.query.len() {
            AppView { cursor: v.cursor + 1, ..v }
        } else {
            v
        },
        KeyCode::Home => AppView { cursor: 0, ..v },
        KeyCode::End => AppView { cursor: v.query.len(), ..v },
        KeyCode::Char(ch) => if k.ctrl {
            if ch == 'u' {
                refresh(AppView { query: Seq::empty(), cursor: 0, ..v }, c)
            } else {
                v
            }
        } else {
            refresh(
                AppView { query: v.query.insert(v.cursor as int, ch), cursor: v.cursor + 1, ..v },
                c,
            )
        },
        _ => v,
    }
}

/// A key in sort mode: `y`, `a` or `j` sorts by year, author or journal;
/// Escape cancels.
pub open spec fn sort_step(v: AppView, c: Ctx, k: Key) -> AppView {
    match k.code {
        KeyCode::Esc => with_mode(v, Mode::Normal, "Sort cancelled"@),
        KeyCode::Char('y') => apply_sort(v, c, SortField::Year),
        KeyCode::Char('a') => apply_sort(v, c, SortField::Author),
        KeyCode::Char('j') => apply_sort(v, c, SortField::Journal),
        _ => v,
    }
}

/// A key press, in whatever mode; the previous request is dropped.
pub open spec fn key_step(v: AppView, c: Ctx, k: Key) -> (AppView, EffectView) {
    let v0 = AppView { request: None, ..v };
    match v.mode {
        Mode::Normal => normal_step(v0, c, k),
        Mode::Searching => (search_step(v0, c, k), EffectView::Continue),
        Mode::Sorting => (sort_step(v0, c, k), EffectView::Continue),
    }
}

/// A mouse event: the wheel moves the selection by three; a left click
/// selects the entry on the clicked row (below the list's top border).
pub open spec fn mouse_step(v: AppView, m: Mouse) -> AppView {
    match m.kind {
        MouseKind::ScrollDown => move_down(v, 3),
        MouseKind::ScrollUp => move_up(v, 3),
        MouseKind::LeftDown => if m.row > 0 && (m.row - 1) + v.scroll < v.filtered.len() {
            ensure_visible(AppView { selected: ((m.row - 1) + v.scroll) as nat, ..v })
        } else {
            v
        },
        MouseKind::Other => v,
    }
}

/// Whether the preview bindings can be followed: every bound action can be
/// cut into name and parameters, and a `preview[start,end]` range names
/// patterns that exist.
pub open spec fn bindings_usable(bs: Seq<(Seq<char>, Seq<char>)>, count: nat) -> bool {
    forall|i: int|
        0 <= i < bs.len() ==> action_cuttable(#[trigger] bs[i].0) && range_fits(bs[i].0, count)
}

/// Preview parameters that form a range `start,end` name existing
/// patterns (when there are any).
pub open spec fn params_fit(params: Option<Seq<char>>, count: nat) -> bool {
    (count > 0 && params is Some && find(params->Some_0, seq![',']) is Some && split(
        params->Some_0,
        seq![','],
    ).len() == 2) ==> {
        let parts = split(params->Some_0, seq![',']);
        &&& (parse_index(parts[0]) matches Some(s) ==> s < count)
        &&& (parse_index(parts[1]) matches Some(e) ==> e < count)
    }
}

/// A preview range binding names existing patterns.
pub open spec fn range_fits(action: Seq<char>, count: nat) -> bool {
    action_parts(action).0 == "preview"@ ==> params_fit(action_parts(action).1, count)
}

/// The selection is inside the list and the scroll does not pass it (both
/// zero for an empty list).
pub open spec fn sel_ok(v: AppView) -> bool {
    (v.filtered.len() == 0 && v.selected == 0 && v.scroll == 0) || (v.selected < v.filtered.len()
        && v.scroll <= v.selected)
}

/// The invariant of the state: the cursor is inside the query; the
/// selection is inside the list and the scroll does not pass it (both zero
/// for an empty list); a shown preview pattern exists.
pub open spec fn state_ok(v: AppView, c: Ctx) -> bool {
    &&& v.cursor <= v.query.len()
    &&& sel_ok(v)
    &&& (v.preview matches Some(i) ==> i < c.patterns.len())
}


/// `a - b`, or zero.
pub open spec fn sat_sub(a: nat, b: nat) -> nat {
    if a >= b {
        (a - b) as nat
    } else {
        0
    }
}

/// The larger of `a` and one.
pub open spec fn at_least_one(a: nat) -> nat {
    if a >= 1 {
        a
    } else {
        1
    }
}

/// The state scrolled for drawing: like `ensure_visible`, but the window
/// shrinks by eight rows while a preview shows, the selection keeps
/// `context` rows below it when it can, and the last entry scrolls the list
/// to its end.
pub open spec fn ensure_visible_with_context(v: AppView, context: nat) -> AppView {
    if v.filtered.len() == 0 {
        AppView { scroll: 0, ..v }
    } else {
        let eff = if v.preview is Some {
            sat_sub(v.list_height, 8)
        } else {
            v.list_height
        };
        let window = at_least_one(eff);
        if v.selected < v.scroll {
            AppView { scroll: v.selected, ..v }
        } else {
            let max_scroll = sat_sub(v.filtered.len(), window);
            let w2 = sat_sub(window, context);
            let s1 = if v.selected >= v.scroll + w2 {
                let target = sat_sub(v.selected, sat_sub(w2, 1));
                if target <= max_scroll {
                    target
                } else {
                    max_scroll
                }
            } else {
                v.scroll
            };
            let s2 = if v.selected == sat_sub(v.filtered.len(), 1) {
                max_scroll
            } else {
                s1
            };
            AppView { scroll: s2, ..v }
        }
    }
}

/// The state after the list area got `height` rows: two go to its border,
/// at least one row remains, and the list scrolls with three rows of
/// context.
pub open spec fn layout_step(v: AppView, height: nat) -> AppView {
    ensure_visible_with_context(AppView { list_height: at_least_one(sat_sub(height, 2)), ..v }, 3)
}

/// The positions of the listed entries that show, with `preview_height`
/// rows taken by a shown preview.
pub open spec fn visible_range(v: AppView, preview_height: nat) -> (nat, nat) {
    let avail = sat_sub(
        v.list_height,
        if v.preview is Some {
            preview_height
        } else {
            0
        },
    );
    let end = if v.scroll + avail <= v.filtered.len() {
        v.scroll + avail
    } else {
        v.filtered.len()
    };
    (v.scroll, end as nat)
}

/// The row of the selection among the shown rows.
pub open spec fn relative_selected(v: AppView) -> Option<nat> {
    if v.filtered.len() == 0 || v.selected < v.scroll {
        None
    } else if v.selected < v.filtered.len() {
        Some((v.selected - v.scroll) as nat)
    } else {
        None
    }
}

/// The help shown after the status message in normal mode.
pub open spec fn help_text(preview_on: bool) -> Seq<char> {
    if preview_on {
        "i next | / search | enter select | e edit | n note | p pdf | y copy | s sort | q quit"@
    } else {
        "i preview | / search | enter select | e edit | n note | p pdf | y copy | s sort | q quit"@
    }
}

/// The status line: the message and the help in normal mode, a fixed help
/// in the other modes.
pub open spec fn status_line(v: AppView) -> Seq<char> {
    match v.mode {
        Mode::Normal => v.status + " | "@ + help_text(v.preview is Some),
        Mode::Searching => "type to filter | @field: scoped | backspace delete | ctrl+u clear | enter/esc close"@,
        Mode::Sorting => "y year | a author | j journal | esc cancel"@,
    }
}

/// The name of a mode.
pub open spec fn mode_label(m: Mode) -> Seq<char> {
    match m {
        Mode::Normal => "normal"@,
        Mode::Searching => "search"@,
        Mode::Sorting => "sort"@,
    }
}

/// The fields that the terms of a query are scoped to, each once, in the
/// order first named.
pub open spec fn scoped_fields(ts: Seq<TermView>) -> Seq<Seq<char>>
    decreases ts.len(),
{
    if ts.len() == 0 {
        Seq::empty()
    } else {
        let prev = scoped_fields(ts.drop_last());
        match ts.last() {
            TermView::Field(f, _) => if prev.contains(f) {
                prev
            } else {
                prev.push(f)
            },
            TermView::Plain(_) => prev,
        }
    }
}

/// The first author of an `author` value, as the list shows it: the text
/// before the first `" and "`, trimmed.
pub open spec fn list_author(e: Entry) -> Seq<char> {
    trim(split(field_or(e, "author"@, "Unknown"@), " and "@)[0])
}

/// One row of the list: a note mark, the citation key (15 columns), the
/// first author (20 columns) and the title in the rest of `width` (at
/// least 10 columns), each cut with an ellipsis.
pub open spec fn entry_line(e: Entry, width: nat, note_exists: bool) -> Seq<char> {
    let title_width = if sat_sub(width, 43) >= 10 {
        sat_sub(width, 43)
    } else {
        10
    };
    (if note_exists {
        "\u{2713}"@
    } else {
        " "@
    }) + " "@ + padded(truncated(e.id.0@, 15), 15) + " "@ + padded(truncated(list_author(e), 20), 20)
        + " "@ + truncated(title_or(e, "Untitled"@), title_width)
}

/// The value of a placeholder in a list line: the key, the author or
/// title (with a default when missing or empty), or any field.
pub open spec fn placeholder(e: Entry, field: Seq<char>) -> Seq<char> {
    if field == "citekey"@ {
        e.id.0@
    } else if field == "author"@ {
        match e.field("author"@) {
            Some(a) => if a.len() > 0 {
                a
            } else {
                "Unknown author"@
            },
            None => "Unknown author"@,
        }
    } else if field == "title"@ {
        match e.field(crate::domain::title_key()) {
            Some(t) => if t.len() > 0 {
                t
            } else {
                "Untitled"@
            },
            None => "Untitled"@,
        }
    } else {
        field_or(e, field, Seq::empty())
    }
}

/// The terminal interface's state.
pub struct TuiApp {
    bib: Bibliography,
    config: Config,
    search_engine: SearchEngine,
    search_query: String,
    selected: usize,
    filtered: Vec<EntryId>,
    mode: Mode,
    sort_field: Option<SortField>,
    status_message: String,
    scroll_offset: usize,
    list_height: usize,
    pending_g: bool,
    cursor_position: usize,
    show_preview: Option<usize>,
    request: Option<ActionRequest>,
    last_effect: Option<TuiEffect>,
}

/// The citation keys of a list of identifiers.
pub open spec fn ids_view(v: Seq<EntryId>) -> Seq<Seq<char>> {
    v.map_values(|id: EntryId| id.0@)
}

/// Whether `s` is the text `lit`.
fn is_text(s: &[char], lit: &str) -> (r: bool)
    ensures
        r == (s@ == lit@),
{
    chars_eq(s, &chars_of(lit))
}

/// The first entry of `es` with the citation key of `id`.
fn find_entry<'a>(es: &'a [Entry], id: &EntryId) -> (r: Option<&'a Entry>)
    ensures
        r matches Some(e) ==> lookup(es@, id.0@) == Some(*e),
        r is None ==> lookup(es@, id.0@) is None,
{
    let key = chars_of(id.0.as_str());
    let mut i: usize = 0;
    while i < es.len()
        invariant
            i <= es@.len(),
            key@ == id.0@,
            lookup(es@, id.0@) == lookup_from(es@, id.0@, i as int),
        decreases es.len() - i,
    {
        if chars_eq(&chars_of(es[i].id.0.as_str()), &key) {
            return Some(&es[i]);
        }
        i += 1;
    }
    None
}

/// `year_key` computed.
fn year_of(o: Option<&Entry>) -> (r: u32)
    ensures
        r as nat == year_key(match o {
            Some(e) => Some(*e),
            None => None,
        }),
{
    match o {
        Some(e) => match e.year() {
            Some(y) => y,
            None => 0,
        },
        None => 0,
    }
}

/// `text_key` computed.
fn text_of(o: Option<&Entry>, name: &str) -> (r: Vec<char>)
    ensures
        r@ == text_key(
            match o {
                Some(e) => Some(*e),
                None => None,
            },
            name@,
        ),
{
    proof {
        reveal_strlit("");
        assert(""@ =~= Seq::<char>::empty());
    }
    match o {
        Some(e) => to_ascii_lower(&chars_of(field_text(e, name, "").as_str())),
        None => Vec::new(),
    }
}

/// `list_order` computed.
fn compare_ids(es: &[Entry], a: &EntryId, b: &EntryId, f: SortField) -> (r: i8)
    ensures
        r as int == list_order(es@, a.0@, b.0@, f),
{
    proof {
        reveal_strlit("");
        assert(""@ =~= Seq::<char>::empty());
    }
    let la = find_entry(es, a);
    let lb = find_entry(es, b);
    let (c1, c2): (i8, i8) = match f {
        SortField::Year => {
            let ya = year_of(la);
            let yb = year_of(lb);
            let c1: i8 = if yb < ya {
                -1
            } else if yb > ya {
                1
            } else {
                0
            };
            (c1, lex_order_exec(&text_of(la, "author"), &text_of(lb, "author")))
        },
        SortField::Author => (
            lex_order_exec(&text_of(la, "author"), &text_of(lb, "author")),
            lex_order_exec(&text_of(la, "title"), &text_of(lb, "title")),
        ),
        SortField::Journal => (
            lex_order_exec(&text_of(la, "journal"), &text_of(lb, "journal")),
            lex_order_exec(&text_of(la, "author"), &text_of(lb, "author")),
        ),
    };
    if c1 != 0 {
        c1
    } else if c2 != 0 {
        c2
    } else {
        lex_order_exec(&chars_of(a.0.as_str()), &chars_of(b.0.as_str()))
    }
}

impl TuiApp {
    /// What the interface reads but never changes.
    pub closed spec fn ctx(&self) -> Ctx {
        Ctx {
            entries: self.bib.entries_view(),
            bindings: self.config.keybindings@,
            patterns: self.config.preview.patterns@,
            smart: self.search_engine.config().smart_case,
            fuzzy: self.search_engine.config().fuzzy,
        }
    }

    /// The settings the interface runs with.
    pub closed spec fn settings(&self) -> Config {
        self.config
    }

    /// The bibliography the interface shows.
    pub closed spec fn library(&self) -> Bibliography {
        self.bib
    }

    /// The abstract state.
    pub closed spec fn state(&self) -> AppView {
        AppView {
            query: self.search_query@,
            cursor: self.cursor_position as nat,
            selected: self.selected as nat,
            filtered: ids_view(self.filtered@),
            mode: self.mode,
            sort_field: self.sort_field,
            status: self.status_message@,
            scroll: self.scroll_offset as nat,
            list_height: self.list_height as nat,
            pending_g: self.pending_g,
            preview: match self.show_preview {
                Some(i) => Some(i as nat),
                None => None,
            },
            request: match self.request {
                Some(r) => Some(request_view(r)),
                None => None,
            },
        }
    }

    /// The interface's invariant: the bibliography is well formed, its
    /// bindings usable, and `state_ok` holds.
    pub closed spec fn wf(&self) -> bool {
        &&& self.bib.wf()
        &&& bindings_usable(self.config.keybindings@, self.config.preview.patterns@.len())
        &&& state_ok(self.state(), self.ctx())
    }

    /// The effect that ended the last run of the event loop, kept for the
    /// program around the interface.
    pub closed spec fn last_effect(&self) -> Option<TuiEffect> {
        self.last_effect
    }

    /// The parts that no key changes.
    closed spec fn frame_same(&self, other: &TuiApp) -> bool {
        &&& self.bib == other.bib
        &&& self.config == other.config
        &&& self.search_engine == other.search_engine
        &&& self.last_effect == other.last_effect
    }

    /// Scrolls so that the selection shows (`ensure_visible`).
    fn ensure_visible(&mut self)
        ensures
            final(self).state() == ensure_visible(old(self).state()),
            final(self).frame_same(old(self)),
            (old(self).state().filtered.len() == 0 && old(self).state().selected == 0) || old(self).state().selected
                < old(self).state().filtered.len() ==> sel_ok(final(self).state()),
    {
        let ghost v = self.state();
        if self.filtered.len() == 0 {
            self.scroll_offset = 0;
            assert(self.state() =~= ensure_visible(v));
            return;
        }
        if self.selected < self.scroll_offset {
            self.scroll_offset = self.selected;
        }
        let window: usize = if self.list_height >= 1 {
            self.list_height
        } else {
            1
        };
        if self.selected - self.scroll_offset >= window {
            self.scroll_offset = self.selected - (window - 1);
        }
        assert(self.state() =~= ensure_visible(v));
    }

    /// Moves the selection down by `amount` (`move_down`).
    fn move_down(&mut self, amount: usize)
        ensures
            final(self).state() == move_down(old(self).state(), amount as nat),
            final(self).frame_same(old(self)),
            sel_ok(old(self).state()) ==> sel_ok(final(self).state()),
    {
        let ghost v = self.state();
        if self.filtered.len() == 0 {
            return;
        }
        let last = self.filtered.len() - 1;
        self.selected = if self.selected < self.filtered.len() && amount < self.filtered.len() - self.selected {
            self.selected + amount
        } else {
            last
        };
        assert(self.state() =~= AppView { selected: self.selected as nat, ..v });
        self.ensure_visible();
    }

    /// Moves the selection up by `amount` (`move_up`).
    fn move_up(&mut self, amount: usize)
        ensures
            final(self).state() == move_up(old(self).state(), amount as nat),
            final(self).frame_same(old(self)),
            sel_ok(old(self).state()) ==> sel_ok(final(self).state()),
    {
        let ghost v = self.state();
        self.selected = self.selected.saturating_sub(amount);
        assert(self.state() =~= AppView { selected: self.selected as nat, ..v });
        self.ensure_visible();
    }

    /// The rows a page moves by.
    fn page_step(&self) -> (r: usize)
        ensures
            r == page_step(self.state()),
    {
        if self.list_height >= 2 {
            self.list_height - 1
        } else {
            1
        }
    }

    /// Selects the first entry.
    fn move_to_top(&mut self)
        ensures
            final(self).state() == move_to_top(old(self).state()),
            final(self).frame_same(old(self)),
            sel_ok(final(self).state()),
    {
        let ghost v = self.state();
        self.selected = 0;
        assert(self.state() =~= AppView { selected: 0, ..v });
        self.ensure_visible();
    }

    /// Selects the last entry.
    fn move_to_bottom(&mut self)
        ensures
            final(self).state() == move_to_bottom(old(self).state()),
            final(self).frame_same(old(self)),
            sel_ok(final(self).state()),
    {
        let ghost v = self.state();
        self.selected = if self.filtered.len() == 0 {
            0
        } else {
            self.filtered.len() - 1
        };
        assert(self.state() =~= AppView { selected: self.selected as nat, ..v });
        self.ensure_visible();
    }

    /// The citation keys that match the query, ranked and sorted
    /// (`ordered_ids`).
    fn ordered_results(&self) -> (r: Vec<EntryId>)
        requires
            self.bib.wf(),
        ensures
            ids_view(r@) == ordered_ids(self.ctx(), self.search_query@, self.sort_field),
    {
        let query = Query::parse(self.search_query.as_str());
        let mut ids: Vec<EntryId> = Vec::new();
        let ghost c = self.ctx();
        let ghost ts = parse_terms(self.search_query@);
        match self.search_engine.search_checked(&self.bib, &query) {
            Some(rs) => {
                let mut i: usize = 0;
                while i < rs.len()
                    invariant
                        i <= rs@.len(),
                        ids_view(ids@) == results_view(rs@).take(i as int).map_values(
                            |r: (Seq<char>, u32)| r.0,
                        ),
                    decreases rs.len() - i,
                {
                    let ghost before = ids_view(ids@);
                    ids.push(EntryId(rs[i].entry_id.0.clone()));
                    assert(results_view(rs@).take(i + 1).map_values(|r: (Seq<char>, u32)| r.0)
                        =~= before.push(rs@[i as int].entry_id.0@));
                    assert(ids_view(ids@) =~= before.push(rs@[i as int].entry_id.0@));
                    i += 1;
                }
                assert(results_view(rs@).take(i as int) =~= results_view(rs@));
            },
            None => {
                assert(ids_view(ids@) =~= Seq::<Seq<char>>::empty());
            },
        }
        assert(ids_view(ids@) == result_ids(c, self.search_query@));
        match self.sort_field {
            None => ids,
            Some(f) => {
                let entries = self.bib.iter();
                let ghost le_ids = list_le(entries@, f);
                let ghost le_e = |a: EntryId, b: EntryId| list_le(entries@, f)(a.0@, b.0@);
                let leq = |a: &EntryId, b: &EntryId| -> (o: bool)
                    ensures
                        o == list_le(entries@, f)(a.0@, b.0@),
                    { compare_ids(entries, a, b, f) <= 0 };
                proof {
                    lemma_stable_sort_map(ids@, |e: EntryId| e.0@, le_e, le_ids);
                    assert(ids_view(ids@) =~= ids@.map_values(|e: EntryId| e.0@));
                }
                let sorted = sort_by_le(ids, leq, Ghost(le_e));
                assert(ids_view(sorted@) =~= sorted@.map_values(|e: EntryId| e.0@));
                sorted
            },
        }
    }

    /// The list recomputed for the query and sort key (`refresh`).
    fn refresh_filtered(&mut self)
        requires
            old(self).bib.wf(),
        ensures
            final(self).state() == refresh(old(self).state(), old(self).ctx()),
            final(self).frame_same(old(self)),
            sel_ok(final(self).state()),
    {
        let ghost v = self.state();
        let ghost c = self.ctx();
        let before: Option<String> = if self.selected < self.filtered.len() {
            Some(self.filtered[self.selected].0.clone())
        } else {
            None
        };
        let ids = self.ordered_results();
        let ghost idv = ids_view(ids@);
        let mut sel: usize = 0;
        match &before {
            Some(b) => {
                let key = chars_of(b.as_str());
                let mut i: usize = 0;
                let mut found = false;
                while i < ids.len() && !found
                    invariant
                        i <= ids@.len(),
                        key@ == b@,
                        idv == ids_view(ids@),
                        !found ==> first_index(idv, b@) == first_index_from(idv, b@, i as int),
                        found ==> first_index(idv, b@) == Some(sel as nat),
                        !found ==> sel == 0,
                    decreases ids.len() - i + if found { 0int } else { 1int },
                {
                    if chars_eq(&chars_of(ids[i].0.as_str()), &key) {
                        sel = i;
                        found = true;
                    } else {
                        i += 1;
                    }
                }
            },
            None => {},
        }
        assert(sel as nat == match selected_id(v) {
            Some(id) => match first_index(idv, id) {
                Some(i) => i,
                None => 0,
            },
            None => 0,
        });
        proof {
            match selected_id(v) {
                Some(id) => lemma_first_index_from(idv, id, 0),
                None => {},
            }
        }
        self.filtered = ids;
        if self.filtered.len() == 0 {
            self.selected = 0;
            self.scroll_offset = 0;
            assert(self.state() =~= refresh(v, c));
        } else {
            self.selected = sel;
            assert(self.state() =~= AppView { filtered: idv, selected: sel as nat, ..v });
            self.ensure_visible();
        }
    }

    /// Sorts by `f` and returns to normal mode (`apply_sort`).
    fn apply_sort_choice(&mut self, f: SortField)
        requires
            old(self).bib.wf(),
        ensures
            final(self).state() == apply_sort(old(self).state(), old(self).ctx(), f),
            final(self).frame_same(old(self)),
            sel_ok(final(self).state()),
    {
        let ghost v = self.state();
        let ghost c = self.ctx();
        self.sort_field = Some(f);
        self.mode = Mode::Normal;
        assert(self.state() =~= AppView { sort_field: Some(f), mode: Mode::Normal, ..v });
        self.refresh_filtered();
        let mut m = String::from_str("Sorted by ");
        m.append(f.label());
        self.status_message = m;
        assert(self.state() =~= apply_sort(v, c, f));
    }

    /// Asks for the selected citation key to be copied (`copy_step`).
    fn copy_selected_citekey(&mut self)
        ensures
            final(self).state() == copy_step(old(self).state()),
            final(self).frame_same(old(self)),
            sel_ok(old(self).state()) ==> sel_ok(final(self).state()),
    {
        let ghost v = self.state();
        if self.selected < self.filtered.len() {
            let id = EntryId(self.filtered[self.selected].0.clone());
            self.request = Some(ActionRequest::CopyCitekey(id));
        } else {
            self.status_message = String::from_str("No entry selected");
        }
        assert(self.state() =~= copy_step(v));
    }

    /// Asks for the PDF of the selected entry to be opened (`pdf_step`).
    fn open_selected_pdf(&mut self)
        requires
            old(self).bib.wf(),
        ensures
            final(self).state() == pdf_step(old(self).state(), old(self).ctx()),
            final(self).frame_same(old(self)),
            sel_ok(old(self).state()) ==> sel_ok(final(self).state()),
    {
        let ghost v = self.state();
        if self.selected < self.filtered.len() {
            let id = EntryId(self.filtered[self.selected].0.clone());
            if self.bib.get(&id).is_some() {
                self.request = Some(ActionRequest::OpenPdf(id));
                assert(self.state() =~= pdf_step(v, self.ctx()));
                return;
            }
        }
        self.status_message = String::from_str("No entry selected");
        assert(self.state() =~= pdf_step(v, self.ctx()));
    }

    /// The effect of asking to edit, or with `note` to take notes on, the
    /// selected entry (`entry_effect_step`).
    fn entry_effect(&mut self, note: bool) -> (r: TuiEffect)
        ensures
            (final(self).state(), effect_view(r)) == entry_effect_step(old(self).state(), note),
            final(self).frame_same(old(self)),
            sel_ok(old(self).state()) ==> sel_ok(final(self).state()),
    {
        let ghost v = self.state();
        if self.selected < self.filtered.len() {
            let id = EntryId(self.filtered[self.selected].0.clone());
            if note {
                TuiEffect::OpenNote(id)
            } else {
                TuiEffect::EditEntry(id)
            }
        } else {
            self.status_message = String::from_str("No entry selected");
            assert(self.state() =~= AppView { status: no_selection(), ..v });
            TuiEffect::Continue
        }
    }

    /// The preview key with parameters `params` (`toggle_preview`).
    fn toggle_preview(&mut self, params: Option<&str>)
        requires
            params_fit(
                match params {
                    Some(p) => Some(p@),
                    None => None,
                },
                old(self).config.preview.patterns@.len(),
            ),
            old(self).state().preview matches Some(i) ==> i < old(self).config.preview.patterns@.len(),
        ensures
            final(self).state() == toggle_preview(
                old(self).state(),
                old(self).ctx(),
                match params {
                    Some(p) => Some(p@),
                    None => None,
                },
            ),
            final(self).frame_same(old(self)),
            sel_ok(old(self).state()) ==> sel_ok(final(self).state()),
            final(self).state().preview matches Some(i) ==> i < old(self).config.preview.patterns@.len(),
    {
        let ghost v = self.state();
        let ghost c = self.ctx();
        let ghost pv = match params {
            Some(p) => Some(p@),
            None => None::<Seq<char>>,
        };
        let count = self.config.preview.patterns.len();
        if count == 0 {
            self.show_preview = None;
            self.status_message = String::from_str("No preview patterns configured");
            assert(self.state() =~= toggle_preview(v, c, pv));
            return;
        }
        let next: Option<usize> = match params {
            None => match self.show_preview {
                None => Some(0),
                Some(i) => if i + 1 < count {
                    Some(i + 1)
                } else {
                    None
                },
            },
            Some(p) => {
                let pc = chars_of(p);
                let comma: Vec<char> = vec![','];
                assert(comma@ =~= seq![',']);
                proof {
                    crate::text::lemma_find_from_bounds(pc@, comma@, 0);
                }
                if find_exec(&pc, &comma, 0).is_some() {
                    let parts = split_exec(&pc, &comma);
                    if parts.len() == 2 {
                        let start = match parse_index_exec(&parts[0]) {
                            Some(x) => x,
                            None => 0,
                        };
                        let end = match parse_index_exec(&parts[1]) {
                            Some(x) => x,
                            None => count - 1,
                        };
                        match self.show_preview {
                            None => Some(start),
                            Some(i) => if i < end {
                                Some(
                                    if i + 1 <= end {
                                        i + 1
                                    } else {
                                        end
                                    },
                                )
                            } else {
                                None
                            },
                        }
                    } else {
                        self.show_preview
                    }
                } else {
                    match parse_index_exec(&pc) {
                        Some(idx) => {
                            let same = match self.show_preview {
                                Some(i) => i == idx,
                                None => false,
                            };
                            if same {
                                None
                            } else {
                                Some(
                                    if idx <= count - 1 {
                                        idx
                                    } else {
                                        count - 1
                                    },
                                )
                            }
                        },
                        None => self.show_preview,
                    }
                }
            },
        };
        let ghost nv = match next {
            Some(i) => Some(i as nat),
            None => None::<nat>,
        };
        assert(nv == next_preview(v.preview, pv, count as nat));
        self.show_preview = next;
        self.status_message = match next {
            None => String::from_str("Preview off"),
            Some(i) => {
                let mut m = match &self.config.preview.patterns[i].name {
                    Some(n) => n.clone(),
                    None => String::from_str("Preview"),
                };
                m.append(" ");
                m.append(decimal_text(i + 1).as_str());
                m.append("/");
                m.append(decimal_text(count).as_str());
                m
            },
        };
        assert(self.state() =~= toggle_preview(v, c, pv));
    }

    /// The first action bound to the key named `key`.
    fn get_keybinding_action(&self, key: &str) -> (r: Option<String>)
        ensures
            r matches Some(a) ==> binding_action(self.config.keybindings@, key@) == Some(a@),
            r is None ==> binding_action(self.config.keybindings@, key@) is None,
    {
        let kb = &self.config.keybindings;
        let k = chars_of(key);
        let mut i: usize = 0;
        while i < kb.len()
            invariant
                i <= kb@.len(),
                k@ == key@,
                kb@ == self.config.keybindings@,
                binding_action(kb@, key@) == binding_action_from(kb@, key@, i as int),
            decreases kb@.len() - i,
        {
            if chars_eq(&chars_of(kb.value_at(i).as_str()), &k) {
                let a = kb.key_at(i).as_str().to_owned();
                assert(binding_action_from(kb@, key@, i as int) == Some(kb@[i as int].0));
                assert(a@ == kb@[i as int].0);
                return Some(a);
            }
            i += 1;
        }
        None
    }

    /// Follows the bound action `action` (`action_step`).
    fn execute_action_binding(&mut self, action: &str) -> (r: TuiEffect)
        requires
            old(self).bib.wf(),
            action_cuttable(action@),
            range_fits(action@, old(self).config.preview.patterns@.len()),
            old(self).state().preview matches Some(i) ==> i < old(self).config.preview.patterns@.len(),
        ensures
            (final(self).state(), effect_view(r)) == action_step(
                old(self).state(),
                old(self).ctx(),
                action@,
            ),
            final(self).frame_same(old(self)),
            sel_ok(old(self).state()) ==> sel_ok(final(self).state()),
            final(self).state().preview matches Some(i) ==> i < old(self).config.preview.patterns@.len(),
    {
        let ghost v = self.state();
        let (base, params) = parse_action_with_params(action);
        let b = chars_of(base.as_str());
        if is_text(&b, "quit") {
            TuiEffect::Quit
        } else if is_text(&b, "up") {
            self.move_up(1);
            TuiEffect::Continue
        } else if is_text(&b, "down") {
            self.move_down(1);
            TuiEffect::Continue
        } else if is_text(&b, "page_up") {
            let step = self.page_step();
            self.move_up(step);
            TuiEffect::Continue
        } else if is_text(&b, "page_down") {
            let step = self.page_step();
            self.move_down(step);
            TuiEffect::Continue
        } else if is_text(&b, "goto_top") {
            self.move_to_top();
            TuiEffect::Continue
        } else if is_text(&b, "goto_bottom") {
            self.move_to_bottom();
            TuiEffect::Continue
        } else if is_text(&b, "search") {
            self.mode = Mode::Searching;
            self.status_message = String::from_str("Search mode");
            assert(self.state() =~= with_mode(v, Mode::Searching, "Search mode"@));
            TuiEffect::Continue
        } else if is_text(&b, "sort_year") {
            self.apply_sort_choice(SortField::Year);
            TuiEffect::Continue
        } else if is_text(&b, "sort_author") {
            self.apply_sort_choice(SortField::Author);
            TuiEffect::Continue
        } else if is_text(&b, "preview") {
            match &params {
                Some(p) => self.toggle_preview(Some(p.as_str())),
                None => self.toggle_preview(None),
            }
            TuiEffect::Continue
        } else if is_text(&b, "copy") {
            self.copy_selected_citekey();
            TuiEffect::Continue
        } else if is_text(&b, "pdf") {
            self.open_selected_pdf();
            TuiEffect::Continue
        } else if is_text(&b, "edit") {
            self.entry_effect(false)
        } else if is_text(&b, "note") {
            self.entry_effect(true)
        } else {
            TuiEffect::Continue
        }
    }

    /// A key in normal mode (`normal_step`).
    #[verifier::rlimit(80)]
    #[verifier::spinoff_prover]
    fn handle_normal_mode(&mut self, key: Key) -> (r: TuiEffect)
        requires
            old(self).wf(),
        ensures
            (final(self).state(), effect_view(r)) == normal_step(
                old(self).state(),
                old(self).ctx(),
                key,
            ),
            final(self).frame_same(old(self)),
            final(self).state().query == old(self).state().query,
            final(self).state().cursor == old(self).state().cursor,
            sel_ok(old(self).state()) ==> sel_ok(final(self).state()),
            final(self).state().preview matches Some(i) ==> i < old(self).config.preview.patterns@.len(),
    {
        let ghost v = self.state();
        let ghost c = self.ctx();
        let name = super::text::key_binding_name(key);
        let mapped = self.get_keybinding_action(name.as_str());
        if self.pending_g && key.code != KeyCode::Char('g') {
            self.pending_g = false;
        }
        let ghost v1 = self.state();
        assert(v1 =~= if v.pending_g && key.code != KeyCode::Char('g') {
            AppView { pending_g: false, ..v }
        } else {
            v
        });
        match mapped {
            Some(action) => {
                proof {
                    lemma_binding_action_from(c.bindings, name@, 0);
                    let j = choose|j: int| 0 <= j < c.bindings.len() && #[trigger] c.bindings[j].0 == action@;
                    assert(action_cuttable(c.bindings[j].0));
                }
                return self.execute_action_binding(action.as_str());
            },
            None => {},
        }
        if key.ctrl && key.code == KeyCode::Char('d') {
            let step = self.page_step();
            self.move_down(step);
            return TuiEffect::Continue;
        }
        if key.ctrl && key.code == KeyCode::Char('u') {
            let step = self.page_step();
            self.move_up(step);
            return TuiEffect::Continue;
        }
        match key.code {
            KeyCode::Char('q') => TuiEffect::Quit,
            KeyCode::Char('j') | KeyCode::Down => {
                self.move_down(1);
                TuiEffect::Continue
            },
            KeyCode::Char('k') | KeyCode::Up => {
                self.move_up(1);
                TuiEffect::Continue
            },
            KeyCode::Char('g') => {
                if self.pending_g {
                    self.pending_g = false;
                    self.move_to_top();
                } else {
                    self.pending_g = true;
                }
                TuiEffect::Continue
            },
            KeyCode::Char('G') => {
                self.move_to_bottom();
                TuiEffect::Continue
            },
            KeyCode::Char('/') => {
                self.mode = Mode::Searching;
                self.status_message = String::from_str("Search mode");
                TuiEffect::Continue
            },
            KeyCode::Enter => {
                if self.selected < self.filtered.len() {
                    TuiEffect::Select(EntryId(self.filtered[self.selected].0.clone()))
                } else {
                    TuiEffect::Continue
                }
            },
            KeyCode::Char('e') => self.entry_effect(false),
            KeyCode::Char('n') => self.entry_effect(true),
            KeyCode::Char('p') => {
                self.open_selected_pdf();
                TuiEffect::Continue
            },
            KeyCode::Char('y') => {
                self.copy_selected_citekey();
                TuiEffect::Continue
            },
            KeyCode::Char('Y') => {
                let selected = self.selected < self.filtered.len();
                self.copy_selected_citekey();
                if selected {
                    TuiEffect::Quit
                } else {
                    TuiEffect::Continue
                }
            },
            KeyCode::Char('s') => {
                self.mode = Mode::Sorting;
                self.status_message = String::from_str("Sort mode");
                TuiEffect::Continue
            },
            KeyCode::Char('i') => {
                self.toggle_preview(None);
                TuiEffect::Continue
            },
            _ => TuiEffect::Continue,
        }
    }

    /// A key in search mode (`search_step`).
    fn handle_search_mode(&mut self, key: Key)
        requires
            old(self).bib.wf(),
            old(self).cursor_position <= old(self).search_query@.len(),
        ensures
            final(self).state() == search_step(old(self).state(), old(self).ctx(), key),
            final(self).frame_same(old(self)),
            sel_ok(old(self).state()) ==> sel_ok(final(self).state()),
            final(self).state().cursor <= final(self).state().query.len(),
            final(self).state().preview == old(self).state().preview,
    {
        let ghost v = self.state();
        let ghost c = self.ctx();
        let mut q = chars_of(self.search_query.as_str());
        match key.code {
            KeyCode::Esc | KeyCode::Enter => {
                self.mode = Mode::Normal;
                self.cursor_position = 0;
                self.status_message = if q.len() == 0 {
                    String::from_str("Search cleared")
                } else {
                    let mut m = decimal_text(self.filtered.len());
                    m.append(" result(s)");
                    m
                };
                assert(self.state() =~= search_step(v, c, key));
            },
            KeyCode::Backspace => {
                if self.cursor_position > 0 {
                    self.cursor_position = self.cursor_position - 1;
                    q.remove(self.cursor_position);
                    self.search_query = string_of(&q);
                    assert(self.state() =~= AppView {
                        cursor: (v.cursor - 1) as nat,
                        query: v.query.remove(v.cursor - 1),
                        ..v
                    });
                    self.refresh_filtered();
                }
            },
            KeyCode::Delete => {
                if self.cursor_position < q.len() {
                    q.remove(self.cursor_position);
                    self.search_query = string_of(&q);
                    assert(self.state() =~= AppView { query: v.query.remove(v.cursor as int), ..v });
                    self.refresh_filtered();
                }
            },
            KeyCode::Left => {
                if self.cursor_position > 0 {
                    self.cursor_position = self.cursor_position - 1;
                }
                assert(self.state() =~= search_step(v, c, key));
            },
            KeyCode::Right => {
                if self.cursor_position < q.len() {
                    self.cursor_position = self.cursor_position + 1;
                }
                assert(self.state() =~= search_step(v, c, key));
            },
            KeyCode::Home => {
                self.cursor_position = 0;
                assert(self.state() =~= search_step(v, c, key));
            },
            KeyCode::End => {
                self.cursor_position = q.len();
                assert(self.state() =~= search_step(v, c, key));
            },
            KeyCode::Char(ch) => {
                if key.ctrl {
                    if ch == 'u' {
                        self.search_query = String::new();
                        self.cursor_position = 0;
                        assert(self.state() =~= AppView { query: Seq::empty(), cursor: 0, ..v });
                        self.refresh_filtered();
                    }
                } else {
                    q.insert(self.cursor_position, ch);
                    self.search_query = string_of(&q);
                    self.cursor_position = self.cursor_position + 1;
                    assert(self.state() =~= AppView {
                        query: v.query.insert(v.cursor as int, ch),
                        cursor: v.cursor + 1,
                        ..v
                    });
                    self.refresh_filtered();
                }
            },
            _ => {},
        }
    }

    /// A key in sort mode (`sort_step`).
    fn handle_sort_mode(&mut self, key: Key)
        requires
            old(self).bib.wf(),
        ensures
            final(self).state() == sort_step(old(self).state(), old(self).ctx(), key),
            final(self).frame_same(old(self)),
            sel_ok(old(self).state()) ==> sel_ok(final(self).state()),
    {
        let ghost v = self.state();
        match key.code {
            KeyCode::Esc => {
                self.mode = Mode::Normal;
                self.status_message = String::from_str("Sort cancelled");
                assert(self.state() =~= sort_step(v, self.ctx(), key));
            },
            KeyCode::Char('y') => self.apply_sort_choice(SortField::Year),
            KeyCode::Char('a') => self.apply_sort_choice(SortField::Author),
            KeyCode::Char('j') => self.apply_sort_choice(SortField::Journal),
            _ => {},
        }
    }

    /// The state the interface starts in, before its list is computed.
    pub open spec fn initial_state() -> AppView {
        AppView {
            query: Seq::empty(),
            cursor: 0,
            selected: 0,
            filtered: Seq::empty(),
            mode: Mode::Normal,
            sort_field: None,
            status: "Ready"@,
            scroll: 0,
            list_height: 10,
            pending_g: false,
            preview: None,
            request: None,
        }
    }

    /// Whether the key bindings of `config` can be followed
    /// (`bindings_usable`).
    pub fn bindings_usable_for(config: &Config) -> (r: bool)
        ensures
            r == bindings_usable(config.keybindings@, config.preview.patterns@.len()),
    {
        let count = config.preview.patterns.len();
        let kb = &config.keybindings;
        let mut i: usize = 0;
        while i < kb.len()
            invariant
                i <= kb@.len(),
                kb@ == config.keybindings@,
                count == config.preview.patterns@.len(),
                forall|j: int|
                    0 <= j < i ==> action_cuttable(#[trigger] kb@[j].0) && range_fits(kb@[j].0, count as nat),
            decreases kb@.len() - i,
        {
            let a = kb.key_at(i).as_str();
            if !crate::config::validate::is_action_cuttable(a) {
                return false;
            }
            let (base, params) = parse_action_with_params(a);
            if count > 0 && is_text(&chars_of(base.as_str()), "preview") {
                match &params {
                    Some(p) => {
                        let pc = chars_of(p.as_str());
                        let comma: Vec<char> = vec![','];
                        assert(comma@ =~= seq![',']);
                        if find_exec(&pc, &comma, 0).is_some() {
                            let parts = split_exec(&pc, &comma);
                            if parts.len() == 2 {
                                match parse_index_exec(&parts[0]) {
                                    Some(x) => {
                                        if x >= count {
                                            return false;
                                        }
                                    },
                                    None => {},
                                }
                                match parse_index_exec(&parts[1]) {
                                    Some(x) => {
                                        if x >= count {
                                            return false;
                                        }
                                    },
                                    None => {},
                                }
                            }
                        }
                    },
                    None => {},
                }
            }
            i += 1;
        }
        true
    }

    /// An interface over `bib` with the settings `config`: normal mode,
    /// status `Ready`, a window of ten rows, and every entry listed.
    pub fn new(bib: Bibliography, config: Config) -> (r: TuiApp)
        requires
            bib.wf(),
            bindings_usable(config.keybindings@, config.preview.patterns@.len()),
        ensures
            r.wf(),
            r.ctx() == (Ctx {
                entries: bib.entries_view(),
                bindings: config.keybindings@,
                patterns: config.preview.patterns@,
                smart: config.search.smart_case,
                fuzzy: config.search.fuzzy,
            }),
            r.state() == refresh(Self::initial_state(), r.ctx()),
            r.last_effect() is None,
            r.settings() == config,
            r.library() == bib,
    {
        let search_engine = SearchEngine::new(
            crate::config::SearchConfig {
                smart_case: config.search.smart_case,
                fuzzy: config.search.fuzzy,
                search_all_fields: config.search.search_all_fields,
            },
        );
        let mut app = TuiApp {
            bib,
            config,
            search_engine,
            search_query: String::new(),
            selected: 0,
            filtered: Vec::new(),
            mode: Mode::Normal,
            sort_field: None,
            status_message: String::from_str("Ready"),
            scroll_offset: 0,
            list_height: 10,
            pending_g: false,
            cursor_position: 0,
            show_preview: None,
            request: None,
            last_effect: None,
        };
        assert(app.state() =~= Self::initial_state());
        app.refresh_filtered();
        app
    }

    /// Reacts to a key press (`key_step`): the state changes and the effect
    /// is returned; a request for the action handler, if any, waits in
    /// `take_request`.
    #[verifier::rlimit(60)]
    #[verifier::spinoff_prover]
    pub fn handle_key_event(&mut self, key: Key) -> (r: TuiEffect)
        requires
            old(self).wf(),
        ensures
            final(self).wf(),
            final(self).ctx() == old(self).ctx(),
            final(self).settings() == old(self).settings(),
            final(self).library() == old(self).library(),
            final(self).last_effect() == old(self).last_effect(),
            (final(self).state(), effect_view(r)) == key_step(old(self).state(), old(self).ctx(), key),
    {
        let ghost v = self.state();
        self.request = None;
        assert(self.state() =~= AppView { request: None, ..v });
        match self.mode {
            Mode::Normal => self.handle_normal_mode(key),
            Mode::Searching => {
                self.handle_search_mode(key);
                TuiEffect::Continue
            },
            Mode::Sorting => {
                self.handle_sort_mode(key);
                TuiEffect::Continue
            },
        }
    }

    /// Reacts to a mouse event (`mouse_step`).
    pub fn handle_mouse_event(&mut self, mouse: Mouse) -> (r: TuiEffect)
        requires
            old(self).wf(),
        ensures
            final(self).wf(),
            final(self).ctx() == old(self).ctx(),
            final(self).settings() == old(self).settings(),
            final(self).library() == old(self).library(),
            final(self).last_effect() == old(self).last_effect(),
            final(self).state() == mouse_step(old(self).state(), mouse),
            r == TuiEffect::Continue,
    {
        let ghost v = self.state();
        match mouse.kind {
            MouseKind::ScrollDown => self.move_down(3),
            MouseKind::ScrollUp => self.move_up(3),
            MouseKind::LeftDown => {
                let row = mouse.row as usize;
                if row > 0 && row - 1 < self.filtered.len() - self.scroll_offset {
                    self.selected = row - 1 + self.scroll_offset;
                    assert(self.state() =~= AppView { selected: self.selected as nat, ..v });
                    self.ensure_visible();
                }
            },
            MouseKind::Other => {},
        }
        TuiEffect::Continue
    }

    /// Takes the request waiting for the action handler.
    pub fn take_request(&mut self) -> (r: Option<ActionRequest>)
        requires
            old(self).wf(),
        ensures
            final(self).wf(),
            final(self).ctx() == old(self).ctx(),
            final(self).settings() == old(self).settings(),
            final(self).library() == old(self).library(),
            final(self).last_effect() == old(self).last_effect(),
            match r {
                Some(q) => old(self).state().request == Some(request_view(q)),
                None => old(self).state().request is None,
            },
            final(self).state() == (AppView { request: None, ..old(self).state() }),
    {
        let ghost v = self.state();
        let r = self.request.take();
        assert(self.state() =~= AppView { request: None, ..v });
        r
    }

    /// Shows the action handler's answer in the status line.
    pub fn finish_request(&mut self, message: String)
        requires
            old(self).wf(),
        ensures
            final(self).wf(),
            final(self).ctx() == old(self).ctx(),
            final(self).settings() == old(self).settings(),
            final(self).library() == old(self).library(),
            final(self).last_effect() == old(self).last_effect(),
            final(self).state() == (AppView { status: message@, ..old(self).state() }),
    {
        let ghost v = self.state();
        self.status_message = message;
        assert(self.state() =~= AppView { status: message@, ..v });
    }

    /// Keeps the effect that ended the event loop.
    pub fn set_last_effect(&mut self, effect: Option<TuiEffect>)
        requires
            old(self).wf(),
        ensures
            final(self).wf(),
            final(self).ctx() == old(self).ctx(),
            final(self).settings() == old(self).settings(),
            final(self).library() == old(self).library(),
            final(self).state() == old(self).state(),
            final(self).last_effect() == effect,
    {
        self.last_effect = effect;
    }

    /// Takes the effect kept by `set_last_effect`.
    pub fn take_last_effect(&mut self) -> (r: Option<TuiEffect>)
        requires
            old(self).wf(),
        ensures
            final(self).wf(),
            final(self).ctx() == old(self).ctx(),
            final(self).settings() == old(self).settings(),
            final(self).library() == old(self).library(),
            final(self).state() == old(self).state(),
            r == old(self).last_effect(),
            final(self).last_effect() is None,
    {
        self.last_effect.take()
    }

    /// Scrolls for drawing (`ensure_visible_with_context`).
    fn ensure_visible_with_context(&mut self, context: usize)
        ensures
            final(self).state() == ensure_visible_with_context(old(self).state(), context as nat),
            final(self).frame_same(old(self)),
            sel_ok(old(self).state()) ==> sel_ok(final(self).state()),
    {
        let ghost v = self.state();
        if self.filtered.len() == 0 {
            self.scroll_offset = 0;
            assert(self.state() =~= ensure_visible_with_context(v, context as nat));
            return;
        }
        let eff = if self.show_preview.is_some() {
            self.list_height.saturating_sub(8)
        } else {
            self.list_height
        };
        let window = if eff >= 1 {
            eff
        } else {
            1
        };
        if self.selected < self.scroll_offset {
            self.scroll_offset = self.selected;
        } else {
            let max_scroll = self.filtered.len().saturating_sub(window);
            let w2 = window.saturating_sub(context);
            if self.selected - self.scroll_offset >= w2 {
                let target = self.selected.saturating_sub(w2.saturating_sub(1));
                self.scroll_offset = if target <= max_scroll {
                    target
                } else {
                    max_scroll
                };
            }
            if self.selected == self.filtered.len().saturating_sub(1) {
                self.scroll_offset = max_scroll;
            }
        }
        assert(self.state() =~= ensure_visible_with_context(v, context as nat));
    }

    /// Fits the list to an area of `height` rows (`layout_step`).
    pub fn layout(&mut self, height: u16)
        requires
            old(self).wf(),
        ensures
            final(self).wf(),
            final(self).ctx() == old(self).ctx(),
            final(self).settings() == old(self).settings(),
            final(self).library() == old(self).library(),
            final(self).last_effect() == old(self).last_effect(),
            final(self).state() == layout_step(old(self).state(), height as nat),
    {
        let ghost v = self.state();
        let h = (height as usize).saturating_sub(2);
        self.list_height = if h >= 1 {
            h
        } else {
            1
        };
        assert(self.state() =~= AppView { list_height: at_least_one(sat_sub(height as nat, 2)), ..v });
        self.ensure_visible_with_context(3);
    }

    /// Sets the rows of the list window.
    pub fn set_list_height(&mut self, height: usize)
        requires
            old(self).wf(),
        ensures
            final(self).wf(),
            final(self).ctx() == old(self).ctx(),
            final(self).settings() == old(self).settings(),
            final(self).library() == old(self).library(),
            final(self).last_effect() == old(self).last_effect(),
            final(self).state() == (AppView { list_height: height as nat, ..old(self).state() }),
    {
        let ghost v = self.state();
        self.list_height = height;
        assert(self.state() =~= AppView { list_height: height as nat, ..v });
    }

    /// The identifiers of the listed entries that show (`visible_range`).
    pub fn visible_entry_ids(&self, preview_height: usize) -> (r: &[EntryId])
        requires
            self.wf(),
        ensures
            ids_view(r@) == self.state().filtered.subrange(
                visible_range(self.state(), preview_height as nat).0 as int,
                visible_range(self.state(), preview_height as nat).1 as int,
            ),
    {
        let avail = self.list_height.saturating_sub(
            if self.show_preview.is_some() {
                preview_height
            } else {
                0
            },
        );
        let end = if avail <= self.filtered.len() - self.scroll_offset {
            self.scroll_offset + avail
        } else {
            self.filtered.len()
        };
        let r = &self.filtered.as_slice()[self.scroll_offset..end];
        assert(ids_view(r@) =~= ids_view(self.filtered@).subrange(self.scroll_offset as int, end as int));
        r
    }

    /// The row of the selection among the shown rows (`relative_selected`).
    pub fn relative_selected(&self) -> (r: Option<usize>)
        ensures
            match r {
                Some(i) => relative_selected(self.state()) == Some(i as nat),
                None => relative_selected(self.state()) is None,
            },
    {
        if self.filtered.len() == 0 || self.selected < self.scroll_offset {
            return None;
        }
        let rel = self.selected - self.scroll_offset;
        if self.selected < self.filtered.len() {
            Some(rel)
        } else {
            None
        }
    }

    /// The identifier under the selection.
    pub fn selected_entry_id(&self) -> (r: Option<&EntryId>)
        ensures
            match r {
                Some(id) => selected_id(self.state()) == Some(id.0@),
                None => selected_id(self.state()) is None,
            },
    {
        if self.selected < self.filtered.len() {
            Some(&self.filtered[self.selected])
        } else {
            None
        }
    }

    /// The entry under the selection.
    pub fn selected_entry(&self) -> (r: Option<&Entry>)
        requires
            self.wf(),
        ensures
            match r {
                Some(e) => selected_id(self.state()) matches Some(id) && has_id(self.ctx().entries, id)
                    && *e == self.ctx().entries[id_index(self.ctx().entries, id)],
                None => selected_id(self.state()) matches Some(id) ==> !has_id(self.ctx().entries, id),
            },
    {
        match self.selected_entry_id() {
            Some(id) => self.bib.get(id),
            None => None,
        }
    }

    /// The bibliography shown.
    pub fn get_bibliography(&self) -> (r: &Bibliography)
        requires
            self.wf(),
        ensures
            *r == self.library(),
            r.wf(),
            r.entries_view() == self.ctx().entries,
    {
        &self.bib
    }

    /// The settings.
    pub fn config(&self) -> (r: &Config)
        ensures
            *r == self.settings(),
            r.keybindings@ == self.ctx().bindings,
            r.preview.patterns@ == self.ctx().patterns,
    {
        &self.config
    }

    /// The search query.
    pub fn search_query(&self) -> (r: &str)
        ensures
            r@ == self.state().query,
    {
        self.search_query.as_str()
    }

    /// The position of the selection in the list.
    pub fn selected(&self) -> (r: usize)
        ensures
            r == self.state().selected,
    {
        self.selected
    }

    /// The position of the first shown entry in the list.
    pub fn scroll_offset(&self) -> (r: usize)
        ensures
            r == self.state().scroll,
    {
        self.scroll_offset
    }

    /// The identifiers of the listed entries, in order.
    pub fn filtered(&self) -> (r: &[EntryId])
        ensures
            ids_view(r@) == self.state().filtered,
    {
        self.filtered.as_slice()
    }

    /// The mode.
    pub fn mode(&self) -> (r: Mode)
        ensures
            r == self.state().mode,
    {
        self.mode
    }

    /// The chosen sort key.
    pub fn sort_field(&self) -> (r: Option<SortField>)
        ensures
            r == self.state().sort_field,
    {
        self.sort_field
    }

    /// The cursor in the search line, in characters.
    pub fn cursor_position(&self) -> (r: usize)
        ensures
            r == self.state().cursor,
    {
        self.cursor_position
    }

    /// The shown preview pattern.
    pub fn show_preview(&self) -> (r: Option<usize>)
        ensures
            match r {
                Some(i) => self.state().preview == Some(i as nat),
                None => self.state().preview is None,
            },
    {
        self.show_preview
    }

    /// The status message.
    pub fn status_message(&self) -> (r: &str)
        ensures
            r@ == self.state().status,
    {
        self.status_message.as_str()
    }

    /// The status line (`status_line`).
    pub fn status_line(&self) -> (r: String)
        ensures
            r@ == status_line(self.state()),
    {
        match self.mode {
            Mode::Normal => {
                let mut m = self.status_message.clone();
                m.append(" | ");
                if self.show_preview.is_some() {
                    m.append(
                        "i next | / search | enter select | e edit | n note | p pdf | y copy | s sort | q quit",
                    );
                } else {
                    m.append(
                        "i preview | / search | enter select | e edit | n note | p pdf | y copy | s sort | q quit",
                    );
                }
                m
            },
            Mode::Searching => String::from_str(
                "type to filter | @field: scoped | backspace delete | ctrl+u clear | enter/esc close",
            ),
            Mode::Sorting => String::from_str("y year | a author | j journal | esc cancel"),
        }
    }

    /// The name of the mode (`mode_label`).
    pub fn mode_label(&self) -> (r: &'static str)
        ensures
            r@ == mode_label(self.state().mode),
    {
        match self.mode {
            Mode::Normal => "normal",
            Mode::Searching => "search",
            Mode::Sorting => "sort",
        }
    }

    /// The fields the query is scoped to (`scoped_fields`).
    pub fn active_filters(&self) -> (r: Vec<String>)
        ensures
            r@.map_values(|f: String| f@) == scoped_fields(parse_terms(self.state().query)),
    {
        let q = Query::parse(self.search_query.as_str());
        let ghost ts = terms_view(q.terms@);
        let mut out: Vec<String> = Vec::new();
        let mut i: usize = 0;
        while i < q.terms.len()
            invariant
                i <= q.terms@.len(),
                ts == terms_view(q.terms@),
                out@.map_values(|f: String| f@) == scoped_fields(ts.take(i as int)),
            decreases q.terms.len() - i,
        {
            assert(ts.take(i + 1).drop_last() =~= ts.take(i as int));
            assert(ts[i as int] == q.terms@[i as int]@);
            match &q.terms[i] {
                QueryTerm::Field { field, text: _ } => {
                    let ghost prev = out@.map_values(|f: String| f@);
                    let fc = chars_of(field.as_str());
                    let mut seen = false;
                    let mut j: usize = 0;
                    while j < out.len()
                        invariant
                            j <= out@.len(),
                            fc@ == field@,
                            prev == out@.map_values(|f: String| f@),
                            seen <==> prev.take(j as int).contains(field@),
                        decreases out.len() - j,
                    {
                        assert(prev.take(j + 1) =~= prev.take(j as int).push(prev[j as int]));
                        proof {
                            let t = prev.take(j as int);
                            let t1 = t.push(prev[j as int]);
                            if t.contains(field@) {
                                let k = choose|k: int| 0 <= k < t.len() && t[k] == field@;
                                assert(t1[k] == field@);
                            }
                            if prev[j as int] == field@ {
                                assert(t1[j as int] == field@);
                            }
                            if t1.contains(field@) {
                                let k = choose|k: int| 0 <= k < t1.len() && t1[k] == field@;
                                if k < t.len() {
                                    assert(t[k] == field@);
                                }
                            }
                        }
                        if chars_eq(&chars_of(out[j].as_str()), &fc) {
                            seen = true;
                        }
                        j += 1;
                    }
                    assert(prev.take(j as int) =~= prev);
                    if !seen {
                        out.push(field.clone());
                        assert(out@.map_values(|f: String| f@) =~= prev.push(field@));
                    }
                },
                QueryTerm::Plain(_) => {},
            }
            i += 1;
        }
        assert(ts.take(i as int) =~= ts);
        out
    }

    /// One row of the list for `entry` in `available_width` columns
    /// (`entry_line`); `note_exists` says whether its note file exists.
    pub fn format_entry_line(&self, entry: &Entry, available_width: usize, note_exists: bool) -> (r:
        String)
        ensures
            r@ == entry_line(*entry, available_width as nat, note_exists),
    {
        let author = field_text(entry, "author", "Unknown");
        let sep: Vec<char> = vec![' ', 'a', 'n', 'd', ' '];
        proof {
            reveal_strlit(" and ");
            assert(sep@ =~= " and "@);
        }
        let parts = split_exec(&chars_of(author.as_str()), &sep);
        proof {
            crate::text::lemma_split_nonempty(author@, sep@);
        }
        let first = string_of(&trim_chars(&parts[0]));
        let title = crate::cli::title_text(entry, "Untitled");
        let title_width: usize = if available_width.saturating_sub(43) >= 10 {
            available_width.saturating_sub(43)
        } else {
            10
        };
        let mut line = String::from_str(
            if note_exists {
                "\u{2713}"
            } else {
                " "
            },
        );
        line.append(" ");
        line.append(pad_to_display_width(truncate_with_ellipsis(entry.id.0.as_str(), 15).as_str(), 15).as_str());
        line.append(" ");
        line.append(pad_to_display_width(truncate_with_ellipsis(first.as_str(), 20).as_str(), 20).as_str());
        line.append(" ");
        line.append(truncate_with_ellipsis(title.as_str(), title_width).as_str());
        line
    }

    /// The value of `field` in a list line for `entry` (`placeholder`).
    pub fn placeholder_value(&self, entry: &Entry, field: &str) -> (r: String)
        ensures
            r@ == placeholder(*entry, field@),
    {
        let f = chars_of(field);
        proof {
            reveal_strlit("");
            assert(""@ =~= Seq::<char>::empty());
            reveal_strlit("title");
            assert("title"@ =~= crate::domain::title_key());
        }
        if is_text(&f, "citekey") {
            entry.id.0.clone()
        } else if is_text(&f, "author") {
            match entry.get_field("author") {
                Some(a) => if chars_of(a).len() > 0 {
                    a.to_owned()
                } else {
                    String::from_str("Unknown author")
                },
                None => String::from_str("Unknown author"),
            }
        } else if is_text(&f, "title") {
            match entry.title() {
                Some(t) => if chars_of(t).len() > 0 {
                    t.to_owned()
                } else {
                    String::from_str("Untitled")
                },
                None => String::from_str("Untitled"),
            }
        } else {
            field_text(entry, field, "")
        }
    }

    /// The text of the shown preview for the selected entry, if a preview
    /// shows and an entry is selected (`preview_text`).
    pub fn preview_content(&self) -> (r: Option<String>)
        requires
            self.wf(),
        ensures
            match r {
                Some(t) => self.state().preview matches Some(i) && selected_id(self.state()) matches Some(
                    id,
                ) && has_id(self.ctx().entries, id) && t@ == preview_text(
                    self.ctx().entries[id_index(self.ctx().entries, id)],
                    self.ctx().patterns,
                    i as int,
                ),
                None => self.state().preview is None || selected_id(self.state()) is None || !has_id(
                    self.ctx().entries,
                    selected_id(self.state())->Some_0,
                ),
            },
    {
        match self.show_preview {
            Some(idx) => match self.selected_entry() {
                Some(entry) => Some(format_preview_with_template(entry, self.config.preview.patterns.as_slice(), idx)),
                None => None,
            },
            None => None,
        }
    }
}


/// After scrolling, a selected entry shows: it lies between the first shown
/// row and the end of the window (of `list_height` rows, at least one).
pub proof fn lemma_selection_shows(v: AppView)
    requires
        v.selected < v.filtered.len(),
    ensures
        ensure_visible(v).scroll <= v.selected < ensure_visible(v).scroll + at_least_one(v.list_height),
        ensure_visible(v).selected == v.selected,
        ensure_visible(v).filtered == v.filtered,
{
}

/// Every move of the selection in the list (by rows, by pages, to either
/// end) leaves the selected entry showing.
pub proof fn lemma_moves_keep_selection_shown(v: AppView, n: nat)
    requires
        v.filtered.len() > 0,
        sel_ok(v),
    ensures
        ({
            let d = move_down(v, n);
            d.scroll <= d.selected < d.scroll + at_least_one(d.list_height) && d.selected < d.filtered.len()
        }),
        ({
            let u = move_up(v, n);
            u.scroll <= u.selected < u.scroll + at_least_one(u.list_height) && u.selected < u.filtered.len()
        }),
        ({
            let t = move_to_top(v);
            t.scroll <= t.selected < t.scroll + at_least_one(t.list_height) && t.selected == 0
        }),
        ({
            let b = move_to_bottom(v);
            b.scroll <= b.selected < b.scroll + at_least_one(b.list_height) && b.selected == v.filtered.len() - 1
        }),
{
}

/// Typing a character in the search line and deleting it with Backspace
/// gives back the query and the cursor, and the list of that query.
#[verifier::rlimit(60)]
#[verifier::spinoff_prover]
pub proof fn lemma_type_then_backspace(v: AppView, c: Ctx, ch: char)
    requires
        v.mode == Mode::Searching,
        v.cursor <= v.query.len(),
    ensures
        ({
            let typed = search_step(v, c, Key { code: KeyCode::Char(ch), ctrl: false });
            let back = search_step(typed, c, Key { code: KeyCode::Backspace, ctrl: false });
            &&& back.query == v.query
            &&& back.cursor == v.cursor
            &&& back.filtered == ordered_ids(c, v.query, v.sort_field)
        }),
{
    let typed = search_step(v, c, Key { code: KeyCode::Char(ch), ctrl: false });
    let w1 = AppView { query: v.query.insert(v.cursor as int, ch), cursor: v.cursor + 1, ..v };
    lemma_refresh_keeps(w1, c);
    assert(typed == refresh(w1, c));
    let w2 = AppView {
        cursor: (typed.cursor - 1) as nat,
        query: typed.query.remove(typed.cursor - 1),
        ..typed
    };
    assert(w2.query =~= v.query);
    lemma_refresh_keeps(w2, c);
}

/// Recomputing the list keeps the query, the cursor, the mode and the sort
/// key, and lists what `ordered_ids` gives.
pub proof fn lemma_refresh_keeps(w: AppView, c: Ctx)
    ensures
        refresh(w, c).query == w.query,
        refresh(w, c).cursor == w.cursor,
        refresh(w, c).mode == w.mode,
        refresh(w, c).sort_field == w.sort_field,
        refresh(w, c).filtered == ordered_ids(c, w.query, w.sort_field),
{
}

/// The list holds exactly the entries that match the query, whatever the
/// sort key: sorting only reorders them.
pub proof fn lemma_sorting_keeps_results(c: Ctx, query: Seq<char>, sort: Option<SortField>)
    ensures
        ordered_ids(c, query, sort).to_multiset() == result_ids(c, query).to_multiset(),
        ordered_ids(c, query, sort).len() == result_ids(c, query).len(),
{
    match sort {
        Some(f) => crate::sorting::lemma_stable_sort_perm(result_ids(c, query), list_le(c.entries, f)),
        None => {},
    }
}

/// Leaving search mode keeps the query and the list; the status tells how
/// many entries match, or that the search is empty.
pub proof fn lemma_leaving_search_keeps_list(v: AppView, c: Ctx)
    ensures
        ({
            let w = search_step(v, c, Key { code: KeyCode::Esc, ctrl: false });
            &&& w.mode == Mode::Normal
            &&& w.query == v.query
            &&& w.filtered == v.filtered
            &&& w.selected == v.selected
            &&& w.cursor == 0
        }),
{
}

/// The lower-cased author of the entry `o` (empty when it has none).
pub open spec fn author_lowered(o: Option<Entry>) -> Seq<char> {
    match o {
        Some(e) => lower_seq(
            match e.field("author"@) {
                Some(a) => a,
                None => Seq::empty(),
            },
        ),
        None => Seq::empty(),
    }
}

proof fn lemma_author_list_order(es: Seq<Entry>, a: Seq<char>, b: Seq<char>, c: Seq<char>)
    ensures
        list_order(es, a, b, SortField::Author) == -list_order(es, b, a, SortField::Author),
        list_order(es, a, b, SortField::Author) <= 0 && list_order(es, b, c, SortField::Author) <= 0
            ==> list_order(es, a, c, SortField::Author) <= 0,
{
    let (la, lb, lc) = (lookup(es, a), lookup(es, b), lookup(es, c));
    let (aa, ab, ac) = (text_key(la, "author"@), text_key(lb, "author"@), text_key(lc, "author"@));
    let (ta, tb, tc) = (text_key(la, "title"@), text_key(lb, "title"@), text_key(lc, "title"@));
    crate::text::lemma_lex_order_antisym(aa, ab);
    crate::text::lemma_lex_order_antisym(ta, tb);
    crate::text::lemma_lex_order_antisym(a, b);
    crate::text::lemma_lex_order_eq(aa, ab);
    crate::text::lemma_lex_order_eq(ab, ac);
    crate::text::lemma_lex_order_eq(aa, ac);
    crate::text::lemma_lex_order_eq(ta, tb);
    crate::text::lemma_lex_order_eq(tb, tc);
    crate::text::lemma_lex_order_eq(ta, tc);
    crate::text::lemma_lex_order_eq(a, b);
    crate::text::lemma_lex_order_eq(b, c);
    crate::text::lemma_lex_order_eq(a, c);
    if lex_order(aa, ab) <= 0 && lex_order(ab, ac) <= 0 {
        crate::text::lemma_lex_order_trans(aa, ab, ac);
    }
    if lex_order(ta, tb) <= 0 && lex_order(tb, tc) <= 0 {
        crate::text::lemma_lex_order_trans(ta, tb, tc);
    }
    if lex_order(a, b) <= 0 && lex_order(b, c) <= 0 {
        crate::text::lemma_lex_order_trans(a, b, c);
    }
    crate::text::lemma_lex_order_antisym(aa, ac);
    crate::text::lemma_lex_order_antisym(ab, ac);
    crate::text::lemma_lex_order_antisym(ta, tc);
    crate::text::lemma_lex_order_antisym(tb, tc);
    crate::text::lemma_lex_order_antisym(a, c);
    crate::text::lemma_lex_order_antisym(b, c);
}

/// Sorting the list by author lists the entries by author, A to Z, letter
/// case aside: for any two listed entries, the one listed first has an
/// author that comes no later (entries without an author count as having
/// an empty one).
pub proof fn lemma_sort_by_author_orders_authors(v: AppView, c: Ctx)
    ensures
        ({
            let w = apply_sort(v, c, SortField::Author);
            forall|i: int, j: int|
                0 <= i < j < w.filtered.len() ==> lex_order(
                    author_lowered(lookup(c.entries, #[trigger] w.filtered[i])),
                    author_lowered(lookup(c.entries, #[trigger] w.filtered[j])),
                ) <= 0
        }),
{
    let le = list_le(c.entries, SortField::Author);
    assert forall|x: Seq<char>, y: Seq<char>, z: Seq<char>| #[trigger] le(x, y) && #[trigger] le(y, z) implies le(x, z) by {
        lemma_author_list_order(c.entries, x, y, z);
    }
    assert forall|x: Seq<char>, y: Seq<char>| #[trigger] le(x, y) || #[trigger] le(y, x) by {
        lemma_author_list_order(c.entries, x, y, x);
    }
    assert(vstd::relations::transitive(le));
    assert(vstd::relations::strongly_connected(le));
    let ids = result_ids(c, v.query);
    crate::sorting::lemma_stable_sort_sorted(ids, le);
    let w = apply_sort(v, c, SortField::Author);
    let s = stable_sort(ids, le);
    assert(w.filtered == s);
    assert forall|i: int, j: int| 0 <= i < j < w.filtered.len() implies lex_order(
        author_lowered(lookup(c.entries, #[trigger] w.filtered[i])),
        author_lowered(lookup(c.entries, #[trigger] w.filtered[j])),
    ) <= 0 by {
        assert(le(s[i], s[j]));
        let (la, lb) = (lookup(c.entries, s[i]), lookup(c.entries, s[j]));
        assert(text_key(la, "author"@) == author_lowered(la));
        assert(text_key(lb, "author"@) == author_lowered(lb));
    }
}

} // verus!
