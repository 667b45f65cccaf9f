//! What the interface draws, as text and kinds of text: colour names, the
//! list's title, the marked parts of a listed line, the parts of the
//! preview and of the status bar. Drawing them is left to the terminal
//! library.
use vstd::prelude::*;

use crate::services::notes::clock::{lowercase_of, to_lowercase};
use crate::text::{chars_of, decimal, decimal_text, find, find_exec, find_from, lemma_find_from_bounds, slice_range, split, split_exec, string_of, trim, trim_chars};

verus! {

/// The colours a theme can name.
#[derive(Debug, Clone, Copy, PartialEq, Eq, Structural)]
pub enum ColorName {
    Black,
    Red,
    Green,
    Yellow,
    Blue,
    Magenta,
    Cyan,
    White,
    DarkGray,
    LightRed,
    LightGreen,
    LightYellow,
    LightBlue,
    LightMagenta,
    LightCyan,
    Gray,
    /// The terminal's own colour.
    Reset,
}

/// The colour a theme name stands for; unknown names (and `#RRGGBB`) keep
/// the terminal's colour.
pub open spec fn color_of(name: Seq<char>) -> ColorName {
    if name == "black"@ {
        ColorName::Black
    } else if name == "red"@ {
        ColorName::Red
    } else if name == "green"@ {
        ColorName::Green
    } else if name == "yellow"@ {
        ColorName::Yellow
    } else if name == "blue"@ {
        ColorName::Blue
    } else if name == "magenta"@ {
        ColorName::Magenta
    } else if name == "cyan"@ {
        ColorName::Cyan
    } else if name == "white"@ {
        ColorName::White
    } else if name == "dark_gray"@ {
        ColorName::DarkGray
    } else if name == "light_red"@ {
        ColorName::LightRed
    } else if name == "light_green"@ {
        ColorName::LightGreen
    } else if name == "light_yellow"@ {
        ColorName::LightYellow
    } else if name == "light_blue"@ {
        ColorName::LightBlue
    } else if name == "light_magenta"@ {
        ColorName::LightMagenta
    } else if name == "light_cyan"@ {
        ColorName::LightCyan
    } else if name == "gray"@ {
        ColorName::Gray
    } else {
        ColorName::Reset
    }
}

/// Whether `s` is the text `lit`.
fn is_text(s: &[char], lit: &str) -> (r: bool)
    ensures
        r == (s@ == lit@),
{
    crate::text::chars_eq(s, &chars_of(lit))
}

/// The colour named `name` (`color_of`).
pub fn color_from_name(name: &str) -> (r: ColorName)
    ensures
        r == color_of(name@),
{
    let n = chars_of(name);
    if is_text(&n, "black") {
        ColorName::Black
    } else if is_text(&n, "red") {
        ColorName::Red
    } else if is_text(&n, "green") {
        ColorName::Green
    } else if is_text(&n, "yellow") {
        ColorName::Yellow
    } else if is_text(&n, "blue") {
        ColorName::Blue
    } else if is_text(&n, "magenta") {
        ColorName::Magenta
    } else if is_text(&n, "cyan") {
        ColorName::Cyan
    } else if is_text(&n, "white") {
        ColorName::White
    } else if is_text(&n, "dark_gray") {
        ColorName::DarkGray
    } else if is_text(&n, "light_red") {
        ColorName::LightRed
    } else if is_text(&n, "light_green") {
        ColorName::LightGreen
    } else if is_text(&n, "light_yellow") {
        ColorName::LightYellow
    } else if is_text(&n, "light_blue") {
        ColorName::LightBlue
    } else if is_text(&n, "light_magenta") {
        ColorName::LightMagenta
    } else if is_text(&n, "light_cyan") {
        ColorName::LightCyan
    } else if is_text(&n, "gray") {
        ColorName::Gray
    } else {
        ColorName::Reset
    }
}

/// How the selected row is drawn: its colours where the theme names them,
/// reversed video when it names neither, always bold.
#[derive(Debug, Clone, Copy, PartialEq, Eq, Structural)]
pub struct SelectedStyle {
    pub fg: Option<ColorName>,
    pub bg: Option<ColorName>,
    pub reversed: bool,
    pub bold: bool,
}

/// The selected row's style for the theme colours `fg` and `bg`.
pub open spec fn selected_style_of(fg: ColorName, bg: ColorName) -> SelectedStyle {
    if fg == ColorName::Reset && bg == ColorName::Reset {
        SelectedStyle { fg: None, bg: None, reversed: true, bold: true }
    } else {
        SelectedStyle {
            fg: if fg != ColorName::Reset {
                Some(fg)
            } else {
                None
            },
            bg: if bg != ColorName::Reset {
                Some(bg)
            } else {
                None
            },
            reversed: false,
            bold: true,
        }
    }
}

/// The selected row's style for the theme's colour names (`selected_style_of`).
pub fn selected_style(fg_name: &str, bg_name: &str) -> (r: SelectedStyle)
    ensures
        r == selected_style_of(color_of(fg_name@), color_of(bg_name@)),
{
    let fg = color_from_name(fg_name);
    let bg = color_from_name(bg_name);
    if fg == ColorName::Reset && bg == ColorName::Reset {
        SelectedStyle { fg: None, bg: None, reversed: true, bold: true }
    } else {
        SelectedStyle {
            fg: if fg != ColorName::Reset {
                Some(fg)
            } else {
                None
            },
            bg: if bg != ColorName::Reset {
                Some(bg)
            } else {
                None
            },
            reversed: false,
            bold: true,
        }
    }
}

/// How the rows inside the entry list's border are shared: how many
/// entries show, and after which shown row the inline preview goes.
#[derive(Debug, Clone, Copy, PartialEq, Eq, Structural)]
pub struct ListRows {
    /// The rows the preview takes (none while it is off).
    pub preview_rows: usize,
    /// The number of entries that show.
    pub shown: usize,
    /// The shown row (the selected one) that the preview follows.
    pub preview_after: Option<usize>,
}

/// The rows inside the list's border (`inner_height` of them) for `items`
/// entries: a shown preview takes `preview_height` rows, the entries take
/// the rest (as many as there are); the preview follows the selected row
/// when that row shows and the preview has rows.
pub fn list_rows(
    inner_height: usize,
    items: usize,
    preview_on: bool,
    preview_height: usize,
    selected: Option<usize>,
) -> (r: ListRows)
    ensures
        r.preview_rows == (if preview_on {
            preview_height
        } else {
            0
        }),
        r.shown == (if inner_height < r.preview_rows {
            0
        } else if inner_height - r.preview_rows < items {
            (inner_height - r.preview_rows) as usize
        } else {
            items
        }),
        r.preview_after == (if preview_on && preview_height > 0 && (selected matches Some(s) && s
            < r.shown) {
            selected
        } else {
            None
        }),
{
    let preview_rows = if preview_on {
        preview_height
    } else {
        0
    };
    let available = inner_height.saturating_sub(preview_rows);
    let shown = if available < items {
        available
    } else {
        items
    };
    let preview_after = match selected {
        Some(s) => if preview_on && preview_height > 0 && s < shown {
            Some(s)
        } else {
            None
        },
        None => None,
    };
    ListRows { preview_rows, shown, preview_after }
}

/// The title of the entry list: the number of the selected entry (zero
/// when none shows) and the number of listed entries.
pub open spec fn list_title_of(selected: Option<nat>, scroll: nat, total: nat) -> Seq<char> {
    "Entries ("@ + decimal(
        match selected {
            Some(s) => scroll + s + 1,
            None => 0,
        },
    ) + "/"@ + decimal(total) + ")"@
}

/// The title of the entry list (`list_title_of`).
pub fn list_title(selected: Option<usize>, scroll_offset: usize, total_items: usize) -> (r: String)
    requires
        selected matches Some(s) ==> scroll_offset + s + 1 <= usize::MAX,
    ensures
        r@ == list_title_of(
            match selected {
                Some(s) => Some(s as nat),
                None => None,
            },
            scroll_offset as nat,
            total_items as nat,
        ),
{
    let n = match selected {
        Some(s) => scroll_offset + s + 1,
        None => 0,
    };
    let mut t = String::from_str("Entries (");
    t.append(decimal_text(n).as_str());
    t.append("/");
    t.append(decimal_text(total_items).as_str());
    t.append(")");
    t
}

/// The places of `q` in `t` from position `start` on, from left to right
/// and without overlap, each as start and end.
pub open spec fn matches_from(t: Seq<char>, q: Seq<char>, start: int) -> Seq<(int, int)>
    decreases t.len() + 1 - start,
{
    if q.len() == 0 || start < 0 {
        Seq::empty()
    } else {
        match find_from(t, q, start) {
            Some(p) => if p >= start && p + q.len() <= t.len() {
                seq![(p, p + q.len())] + matches_from(t, q, p + q.len())
            } else {
                Seq::empty()
            },
            None => Seq::empty(),
        }
    }
}

/// The places of `q` in `t` (`matches_from` from the start).
pub fn find_all_matches(text: &[char], query: &[char]) -> (r: Vec<(usize, usize)>)
    ensures
        r@.map_values(|m: (usize, usize)| (m.0 as int, m.1 as int)) == matches_from(text@, query@, 0),
{
    let mut out: Vec<(usize, usize)> = Vec::new();
    if query.len() == 0 {
        assert(out@.map_values(|m: (usize, usize)| (m.0 as int, m.1 as int)) =~= Seq::<(int, int)>::empty());
        return out;
    }
    let mut start: usize = 0;
    assert(out@.map_values(|m: (usize, usize)| (m.0 as int, m.1 as int)) + matches_from(text@, query@, 0)
        =~= matches_from(text@, query@, 0));
    while start <= text.len()
        invariant
            query.len() > 0,
            out@.map_values(|m: (usize, usize)| (m.0 as int, m.1 as int)) + matches_from(
                text@,
                query@,
                start as int,
            ) == matches_from(text@, query@, 0),
        decreases text.len() + 1 - start,
    {
        proof {
            lemma_find_from_bounds(text@, query@, start as int);
        }
        match find_exec(text, query, start) {
            Some(p) => {
                let ghost before = out@.map_values(|m: (usize, usize)| (m.0 as int, m.1 as int));
                out.push((p, p + query.len()));
                assert(out@.map_values(|m: (usize, usize)| (m.0 as int, m.1 as int)) =~= before.push(
                    (p as int, p + query.len()),
                ));
                assert(seq![(p as int, p + query.len())] + matches_from(text@, query@, p + query.len())
                    == matches_from(text@, query@, start as int));
                assert(before.push((p as int, p + query.len())) + matches_from(
                    text@,
                    query@,
                    p + query.len(),
                ) =~= before + matches_from(text@, query@, start as int));
                start = p + query.len();
            },
            None => {
                assert(out@.map_values(|m: (usize, usize)| (m.0 as int, m.1 as int)) =~= matches_from(
                    text@,
                    query@,
                    0,
                ));
                return out;
            },
        }
    }
    assert(matches_from(text@, query@, start as int) =~= Seq::<(int, int)>::empty());
    assert(out@.map_values(|m: (usize, usize)| (m.0 as int, m.1 as int)) =~= matches_from(text@, query@, 0));
    out
}


/// The state of cutting a preview line at its markers: the parts so far
/// (each with whether it is a value), the part in progress, and whether it
/// is a value.
pub open spec fn preview_acc(line: Seq<char>, n: int) -> (Seq<(Seq<char>, bool)>, Seq<char>, bool)
    decreases n,
{
    if n <= 0 {
        (Seq::empty(), Seq::empty(), false)
    } else {
        let (parts, buf, in_value) = preview_acc(line, n - 1);
        let ch = line[n - 1];
        if ch == '\u{1e}' || ch == '\u{1f}' {
            (
                if buf.len() > 0 {
                    parts.push((buf, in_value))
                } else {
                    parts
                },
                Seq::empty(),
                ch == '\u{1e}',
            )
        } else {
            (parts, buf.push(ch), in_value)
        }
    }
}

/// A preview line cut into labels and values: the record separator starts
/// a value and the unit separator ends it; the markers themselves vanish.
pub open spec fn preview_parts(line: Seq<char>) -> Seq<(Seq<char>, bool)> {
    let (parts, buf, in_value) = preview_acc(line, line.len() as int);
    if buf.len() > 0 {
        parts.push((buf, in_value))
    } else {
        parts
    }
}

/// A preview line cut into labels and values (`preview_parts`); `true`
/// marks a value.
pub fn preview_line_parts(line: &str) -> (r: Vec<(String, bool)>)
    ensures
        r@.map_values(|p: (String, bool)| (p.0@, p.1)) == preview_parts(line@),
{
    let c = chars_of(line);
    let mut parts: Vec<(String, bool)> = Vec::new();
    let mut buf: Vec<char> = Vec::new();
    let mut in_value = false;
    let mut i: usize = 0;
    while i < c.len()
        invariant
            i <= c@.len(),
            c@ == line@,
            preview_acc(line@, i as int) == (
                parts@.map_values(|p: (String, bool)| (p.0@, p.1)),
                buf@,
                in_value,
            ),
        decreases c.len() - i,
    {
        let ch = c[i];
        if ch == '\u{1e}' || ch == '\u{1f}' {
            if buf.len() > 0 {
                let ghost before = parts@.map_values(|p: (String, bool)| (p.0@, p.1));
                parts.push((string_of(&buf), in_value));
                assert(parts@.map_values(|p: (String, bool)| (p.0@, p.1)) =~= before.push((buf@, in_value)));
            }
            buf = Vec::new();
            in_value = ch == '\u{1e}';
        } else {
            buf.push(ch);
        }
        i += 1;
    }
    if buf.len() > 0 {
        let ghost before = parts@.map_values(|p: (String, bool)| (p.0@, p.1));
        parts.push((string_of(&buf), in_value));
        assert(parts@.map_values(|p: (String, bool)| (p.0@, p.1)) =~= before.push((buf@, in_value)));
    }
    parts
}

/// The kinds of text in the status bar in normal mode.
#[derive(Debug, Clone, Copy, PartialEq, Eq, Structural)]
pub enum StatusPart {
    /// The key of a help item.
    Key,
    /// What the key does.
    Desc,
    /// Any other text, and the separators.
    Plain,
}

/// A help item cut at its first space into key and description; without a
/// space it is plain text.
pub open spec fn item_parts(p: Seq<char>) -> Seq<(Seq<char>, StatusPart)> {
    match find(p, seq![' ']) {
        Some(i) => if 0 <= i <= p.len() {
            seq![(p.subrange(0, i), StatusPart::Key), (p.subrange(i, p.len() as int), StatusPart::Desc)]
        } else {
            seq![(p, StatusPart::Plain)]
        },
        None => seq![(p, StatusPart::Plain)],
    }
}

/// The parts of the first `k` items of the status text `items` (split at
/// `|`): each non-blank item, trimmed, followed by a separator unless it is
/// the last item.
pub open spec fn status_acc(items: Seq<Seq<char>>, k: int) -> Seq<(Seq<char>, StatusPart)>
    decreases k,
{
    if k <= 0 {
        Seq::empty()
    } else {
        let prev = status_acc(items, k - 1);
        let p = trim(items[k - 1]);
        if p.len() == 0 {
            prev
        } else {
            prev + item_parts(p) + if k - 1 < items.len() - 1 {
                seq![(" | "@, StatusPart::Plain)]
            } else {
                Seq::empty()
            }
        }
    }
}

/// The status bar in normal mode cut into keys, descriptions and plain
/// text; a text with no item stays whole.
pub open spec fn status_parts(text: Seq<char>) -> Seq<(Seq<char>, StatusPart)> {
    let items = split(text, seq!['|']);
    let parts = status_acc(items, items.len() as int);
    if parts.len() == 0 {
        seq![(text, StatusPart::Plain)]
    } else {
        parts
    }
}

/// The status bar text cut into its parts (`status_parts`).
pub fn status_line_parts(text: &str) -> (r: Vec<(String, StatusPart)>)
    ensures
        r@.map_values(|p: (String, StatusPart)| (p.0@, p.1)) == status_parts(text@),
{
    let bar: Vec<char> = vec!['|'];
    let space: Vec<char> = vec![' '];
    assert(bar@ =~= seq!['|']);
    assert(space@ =~= seq![' ']);
    let items = split_exec(&chars_of(text), &bar);
    let ghost iv = split(text@, seq!['|']);
    let mut out: Vec<(String, StatusPart)> = Vec::new();
    let mut k: usize = 0;
    assert(out@.map_values(|p: (String, StatusPart)| (p.0@, p.1)) =~= status_acc(iv, 0));
    while k < items.len()
        invariant
            k <= items@.len(),
            items@.len() == iv.len(),
            forall|j: int| 0 <= j < items@.len() ==> #[trigger] items@[j]@ == iv[j],
            space@ == seq![' '],
            out@.map_values(|p: (String, StatusPart)| (p.0@, p.1)) == status_acc(iv, k as int),
        decreases items.len() - k,
    {
        let p = trim_chars(&items[k]);
        if p.len() > 0 {
            let ghost before = out@.map_values(|q: (String, StatusPart)| (q.0@, q.1));
            proof {
                crate::text::lemma_find_from_bounds(p@, space@, 0);
            }
            match find_exec(&p, &space, 0) {
                Some(i) => {
                    out.push((string_of(&slice_range(&p, 0, i)), StatusPart::Key));
                    out.push((string_of(&slice_range(&p, i, p.len())), StatusPart::Desc));
                },
                None => {
                    out.push((string_of(&p), StatusPart::Plain));
                },
            }
            assert(out@.map_values(|q: (String, StatusPart)| (q.0@, q.1)) =~= before + item_parts(p@));
            if k < items.len() - 1 {
                let ghost mid = out@.map_values(|q: (String, StatusPart)| (q.0@, q.1));
                out.push((String::from_str(" | "), StatusPart::Plain));
                assert(out@.map_values(|q: (String, StatusPart)| (q.0@, q.1)) =~= mid.push((" | "@, StatusPart::Plain)));
            }
            assert(out@.map_values(|q: (String, StatusPart)| (q.0@, q.1)) =~= status_acc(iv, k + 1));
        }
        k += 1;
    }
    if out.len() == 0 {
        out.push((text.to_owned(), StatusPart::Plain));
        assert(out@.map_values(|q: (String, StatusPart)| (q.0@, q.1)) =~= seq![(text@, StatusPart::Plain)]);
    }
    out
}

/// The kinds of text in the status bar in search mode.
#[derive(Debug, Clone, Copy, PartialEq, Eq, Structural)]
pub enum BarPart {
    /// The `/` that starts the search line.
    Prompt,
    /// The space after it.
    Gap,
    /// `search...`, shown while the query is empty.
    Placeholder,
    /// Query text.
    Text,
    /// The character under the cursor.
    Cursor,
    /// The cursor after the last character.
    CursorEnd,
}

/// The search line cut into its parts: the prompt, then the placeholder
/// for an empty query, else the query around the cursor (the text before
/// it, the character under it or a blank at the end, the text after it).
pub open spec fn search_bar_of(text: Seq<char>, cursor: Option<nat>) -> Seq<(Seq<char>, BarPart)> {
    seq![("/"@, BarPart::Prompt), (" "@, BarPart::Gap)] + if text.len() == 0 {
        seq![("search..."@, BarPart::Placeholder)]
    } else {
        match cursor {
            Some(c) => {
                let before = text.subrange(0, c as int);
                (if before.len() > 0 {
                    seq![(before, BarPart::Text)]
                } else {
                    Seq::empty()
                }) + if c < text.len() {
                    let after = text.subrange(c as int + 1, text.len() as int);
                    seq![(seq![text[c as int]], BarPart::Cursor)] + if after.len() > 0 {
                        seq![(after, BarPart::Text)]
                    } else {
                        Seq::empty()
                    }
                } else {
                    seq![(" "@, BarPart::CursorEnd)]
                }
            },
            None => seq![(text, BarPart::Text)],
        }
    }
}

/// The search line cut into its parts (`search_bar_of`).
pub fn search_bar_parts(text: &str, cursor: Option<usize>) -> (r: Vec<(String, BarPart)>)
    requires
        cursor matches Some(c) ==> c <= text@.len(),
    ensures
        r@.map_values(|p: (String, BarPart)| (p.0@, p.1)) == search_bar_of(
            text@,
            match cursor {
                Some(c) => Some(c as nat),
                None => None,
            },
        ),
{
    let t = chars_of(text);
    let mut out: Vec<(String, BarPart)> = vec![
        (String::from_str("/"), BarPart::Prompt),
        (String::from_str(" "), BarPart::Gap),
    ];
    let ghost head = seq![("/"@, BarPart::Prompt), (" "@, BarPart::Gap)];
    assert(out@.map_values(|p: (String, BarPart)| (p.0@, p.1)) =~= head);
    if t.len() == 0 {
        out.push((String::from_str("search..."), BarPart::Placeholder));
        assert(out@.map_values(|p: (String, BarPart)| (p.0@, p.1)) =~= head + seq![("search..."@, BarPart::Placeholder)]);
    } else {
        match cursor {
            Some(c) => {
                let ghost before = text@.subrange(0, c as int);
                let ghost first: Seq<(Seq<char>, BarPart)> = if before.len() > 0 {
                    seq![(before, BarPart::Text)]
                } else {
                    Seq::empty()
                };
                if c > 0 {
                    out.push((string_of(&slice_range(&t, 0, c)), BarPart::Text));
                }
                assert(out@.map_values(|p: (String, BarPart)| (p.0@, p.1)) =~= head + first);
                if c < t.len() {
                    let cur = string_of(&[t[c]]);
                    assert(cur@ =~= seq![text@[c as int]]);
                    out.push((cur, BarPart::Cursor));
                    let ghost after = text@.subrange(c as int + 1, text@.len() as int);
                    if c + 1 < t.len() {
                        out.push((string_of(&slice_range(&t, c + 1, t.len())), BarPart::Text));
                    }
                    assert(out@.map_values(|p: (String, BarPart)| (p.0@, p.1)) =~= head + first + (seq![
                        (seq![text@[c as int]], BarPart::Cursor),
                    ] + if after.len() > 0 {
                        seq![(after, BarPart::Text)]
                    } else {
                        Seq::empty()
                    }));
                } else {
                    out.push((String::from_str(" "), BarPart::CursorEnd));
                    assert(out@.map_values(|p: (String, BarPart)| (p.0@, p.1)) =~= head + first + seq![(" "@, BarPart::CursorEnd)]);
                }
            },
            None => {
                out.push((text.to_owned(), BarPart::Text));
                assert(out@.map_values(|p: (String, BarPart)| (p.0@, p.1)) =~= head + seq![(text@, BarPart::Text)]);
            },
        }
    }
    assert(out@.map_values(|p: (String, BarPart)| (p.0@, p.1)) =~= search_bar_of(
        text@,
        match cursor {
            Some(c) => Some(c as nat),
            None => None,
        },
    ));
    out
}


/// The places found by `matches_from` lie inside `t`, in order, each at or
/// after `start`, without overlap.
pub proof fn lemma_matches_bounds(t: Seq<char>, q: Seq<char>, start: int)
    requires
        0 <= start,
    ensures
        ({
            let ms = matches_from(t, q, start);
            &&& forall|k: int|
                0 <= k < ms.len() ==> start <= (#[trigger] ms[k]).0 <= ms[k].1 <= t.len()
            &&& forall|k: int| 0 <= k < ms.len() - 1 ==> (#[trigger] ms[k]).1 <= ms[k + 1].0
        }),
    decreases t.len() + 1 - start,
{
    if q.len() > 0 {
        match find_from(t, q, start) {
            Some(p) => {
                if p >= start && p + q.len() <= t.len() {
                    lemma_matches_bounds(t, q, p + q.len());
                    let rest = matches_from(t, q, p + q.len());
                    let ms = matches_from(t, q, start);
                    assert(ms == seq![(p, p + q.len())] + rest);
                    assert forall|k: int| 0 <= k < ms.len() - 1 implies (#[trigger] ms[k]).1 <= ms[k + 1].0 by {
                        if k > 0 {
                            assert(ms[k] == rest[k - 1]);
                            assert(ms[k + 1] == rest[k]);
                        } else {
                            assert(ms[1] == rest[0]);
                        }
                    }
                    assert forall|k: int| 0 <= k < ms.len() implies start <= (#[trigger] ms[k]).0 <= ms[k].1
                        <= t.len() by {
                        if k > 0 {
                            assert(ms[k] == rest[k - 1]);
                        }
                    }
                }
            },
            None => {},
        }
    }
}

/// The parts of `t` around the places `ms[..k]`: plain text between them,
/// marked text at them; and where the last one ends.
pub open spec fn marked_acc(t: Seq<char>, ms: Seq<(int, int)>, k: int) -> (Seq<(Seq<char>, bool)>, int)
    decreases k,
{
    if k <= 0 {
        (Seq::empty(), 0)
    } else {
        let (parts, last) = marked_acc(t, ms, k - 1);
        let (a, b) = ms[k - 1];
        let before = if a > last {
            parts.push((t.subrange(last, a), false))
        } else {
            parts
        };
        (before.push((t.subrange(a, b), true)), b)
    }
}

/// `t` cut into plain and marked parts at the places `ms`.
pub open spec fn marked_parts(t: Seq<char>, ms: Seq<(int, int)>) -> Seq<(Seq<char>, bool)> {
    let (parts, last) = marked_acc(t, ms, ms.len() as int);
    if last < t.len() {
        parts.push((t.subrange(last, t.len() as int), false))
    } else {
        parts
    }
}

/// Where a listed line matches the search query, ignoring case: the places
/// of the lower-cased query in the lower-cased line. When lower-casing
/// changes the line's length the places cannot be carried over, and none
/// is marked.
pub open spec fn highlight_places(text: Seq<char>, query: Seq<char>) -> Seq<(int, int)> {
    if lowercase_of(text).len() == text.len() {
        matches_from(lowercase_of(text), lowercase_of(query), 0)
    } else {
        Seq::empty()
    }
}

/// A listed line cut into plain parts and parts that match the query
/// (`marked_parts` at `highlight_places`); `true` marks a match.
pub fn highlight_parts(text: &str, query: &str) -> (r: Vec<(String, bool)>)
    ensures
        r@.map_values(|p: (String, bool)| (p.0@, p.1)) == marked_parts(text@, highlight_places(text@, query@)),
{
    let t = chars_of(text);
    let lt = chars_of(to_lowercase(text).as_str());
    let lq = chars_of(to_lowercase(query).as_str());
    let ms: Vec<(usize, usize)> = if lt.len() == t.len() {
        find_all_matches(&lt, &lq)
    } else {
        Vec::new()
    };
    let ghost mv = ms@.map_values(|m: (usize, usize)| (m.0 as int, m.1 as int));
    assert(mv == highlight_places(text@, query@));
    proof {
        if lt.len() == t.len() {
            lemma_matches_bounds(lt@, lq@, 0);
        }
    }
    let mut out: Vec<(String, bool)> = Vec::new();
    let mut last: usize = 0;
    let mut k: usize = 0;
    while k < ms.len()
        invariant
            k <= ms@.len(),
            t@ == text@,
            mv == ms@.map_values(|m: (usize, usize)| (m.0 as int, m.1 as int)),
            forall|j: int| 0 <= j < mv.len() ==> (#[trigger] mv[j]).0 <= mv[j].1 <= t@.len(),
            forall|j: int| 0 <= j < mv.len() - 1 ==> (#[trigger] mv[j]).1 <= mv[j + 1].0,
            last <= t@.len(),
            k > 0 ==> last == mv[k - 1].1,
            k == 0 ==> last == 0,
            marked_acc(text@, mv, k as int) == (out@.map_values(|p: (String, bool)| (p.0@, p.1)), last as int),
        decreases ms.len() - k,
    {
        let (a, b) = ms[k];
        assert(mv[k as int] == (a as int, b as int));
        if k > 0 {
            assert(mv[k - 1].1 <= mv[k as int].0);
        }
        let ghost before = out@.map_values(|p: (String, bool)| (p.0@, p.1));
        if a > last {
            out.push((string_of(&slice_range(&t, last, a)), false));
        }
        let ghost mid = out@.map_values(|p: (String, bool)| (p.0@, p.1));
        assert(mid =~= if a > last {
            before.push((text@.subrange(last as int, a as int), false))
        } else {
            before
        });
        out.push((string_of(&slice_range(&t, a, b)), true));
        assert(out@.map_values(|p: (String, bool)| (p.0@, p.1)) =~= mid.push((text@.subrange(a as int, b as int), true)));
        last = b;
        k += 1;
    }
    if last < t.len() {
        let ghost before = out@.map_values(|p: (String, bool)| (p.0@, p.1));
        out.push((string_of(&slice_range(&t, last, t.len())), false));
        assert(out@.map_values(|p: (String, bool)| (p.0@, p.1)) =~= before.push((text@.subrange(last as int, text@.len() as int), false)));
    }
    out
}

} // verus!
