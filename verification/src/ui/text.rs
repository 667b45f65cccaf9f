//! Text as the terminal shows it: column widths, cutting and padding, key
//! names, and the preview of an entry.
use vstd::prelude::*;

use crate::cli::{spaces, title_or, year_or};
use crate::config::PreviewPattern;
use crate::domain::Entry;
use crate::services::notes::names::{join_with, replace_all, replace_chars, texts};
use crate::text::{chars_of, decimal, decimal_text, lower, lower_char, string_of};
use super::{Key, KeyCode};

verus! {

/// Whether a code point is drawn two columns wide (CJK and other wide
/// characters).
pub open spec fn is_wide(u: u32) -> bool {
    u >= 0x1100 && (u <= 0x115f || u >= 0x2329 && u <= 0x232a || u >= 0x2e80 && u <= 0x303e
        || u >= 0x3040 && u <= 0xa4cf || u >= 0xac00 && u <= 0xd7a3 || u >= 0xf900 && u <= 0xfaff
        || u >= 0xfe10 && u <= 0xfe19 || u >= 0xfe30 && u <= 0xfe6f || u >= 0xff00 && u <= 0xff60
        || u >= 0xffe0 && u <= 0xffe6 || u >= 0x20000 && u <= 0x2fffd || u >= 0x30000 && u
        <= 0x3fffd)
}

/// The columns a character takes: two for wide characters, else one.
pub open spec fn char_width(c: char) -> nat {
    if is_wide(c as u32) {
        2
    } else {
        1
    }
}

/// The columns a text takes.
pub open spec fn display_width(s: Seq<char>) -> nat
    decreases s.len(),
{
    if s.len() == 0 {
        0
    } else {
        display_width(s.drop_last()) + char_width(s.last())
    }
}

/// The columns of one character.
pub fn char_display_width(c: char) -> (r: usize)
    ensures
        r == char_width(c),
{
    let u = c as u32;
    if u >= 0x1100 && (u <= 0x115f || u >= 0x2329 && u <= 0x232a || u >= 0x2e80 && u <= 0x303e
        || u >= 0x3040 && u <= 0xa4cf || u >= 0xac00 && u <= 0xd7a3 || u >= 0xf900 && u <= 0xfaff
        || u >= 0xfe10 && u <= 0xfe19 || u >= 0xfe30 && u <= 0xfe6f || u >= 0xff00 && u <= 0xff60
        || u >= 0xffe0 && u <= 0xffe6 || u >= 0x20000 && u <= 0x2fffd || u >= 0x30000 && u
        <= 0x3fffd) {
        2
    } else {
        1
    }
}

/// A prefix is no wider than the whole.
pub proof fn lemma_width_prefix(s: Seq<char>, i: int)
    requires
        0 <= i <= s.len(),
    ensures
        display_width(s.take(i)) <= display_width(s),
    decreases s.len(),
{
    if i < s.len() {
        assert(s.take(i) =~= s.drop_last().take(i));
        lemma_width_prefix(s.drop_last(), i);
    } else {
        assert(s.take(i) =~= s);
    }
}

/// The width of `s`, or `cap` when `s` is wider.
pub fn width_capped(s: &[char], cap: usize) -> (r: usize)
    ensures
        r == if display_width(s@) <= cap {
            display_width(s@)
        } else {
            cap as nat
        },
{
    let mut sum: usize = 0;
    let mut i: usize = 0;
    assert(s@.take(0) =~= Seq::<char>::empty());
    while i < s.len()
        invariant
            i <= s@.len(),
            sum == display_width(s@.take(i as int)),
            sum <= cap,
        decreases s.len() - i,
    {
        assert(s@.take(i + 1).drop_last() =~= s@.take(i as int));
        let w = char_display_width(s[i]);
        if w > cap - sum {
            proof {
                lemma_width_prefix(s@, i + 1);
            }
            return cap;
        }
        sum = sum + w;
        i += 1;
    }
    assert(s@.take(i as int) =~= s@);
    sum
}

/// Whether `s` takes at most `max` columns.
pub fn width_at_most(s: &[char], max: usize) -> (r: bool)
    ensures
        r == (display_width(s@) <= max),
{
    let mut sum: usize = 0;
    let mut i: usize = 0;
    assert(s@.take(0) =~= Seq::<char>::empty());
    while i < s.len()
        invariant
            i <= s@.len(),
            sum == display_width(s@.take(i as int)),
            sum <= max,
        decreases s.len() - i,
    {
        assert(s@.take(i + 1).drop_last() =~= s@.take(i as int));
        let w = char_display_width(s[i]);
        if w > max - sum {
            proof {
                lemma_width_prefix(s@, i + 1);
            }
            return false;
        }
        sum = sum + w;
        i += 1;
    }
    assert(s@.take(i as int) =~= s@);
    true
}

/// How many leading characters of `s`, from position `i` on with `used`
/// columns already taken, fit in `avail` columns.
pub open spec fn fit_count(s: Seq<char>, avail: int, i: int, used: int) -> int
    decreases s.len() - i,
{
    if i < 0 || i >= s.len() || used + char_width(s[i]) > avail {
        i
    } else {
        fit_count(s, avail, i + 1, used + char_width(s[i]))
    }
}

/// The ellipsis that marks a cut text.
pub open spec fn ellipsis() -> Seq<char> {
    seq!['\u{2026}']
}

/// `s` cut to `max` columns: unchanged when it fits, else the longest
/// prefix that fits in one column less, then an ellipsis (only the ellipsis
/// when `max` is at most one column).
pub open spec fn truncated(s: Seq<char>, max: nat) -> Seq<char> {
    if display_width(s) <= max {
        s
    } else if max <= 1 {
        ellipsis()
    } else {
        s.take(fit_count(s, max - 1, 0, 0)) + ellipsis()
    }
}

/// `s` cut to `max_len` columns with an ellipsis (`truncated`).
pub fn truncate_with_ellipsis(text: &str, max_len: usize) -> (r: String)
    ensures
        r@ == truncated(text@, max_len as nat),
{
    let c = chars_of(text);
    if width_at_most(&c, max_len) {
        return text.to_owned();
    }
    if max_len <= 1 {
        return string_of(&['\u{2026}']);
    }
    let available = max_len - 1;
    let mut out: Vec<char> = Vec::new();
    let mut used: usize = 0;
    let mut i: usize = 0;
    let mut stop = false;
    while i < c.len() && !stop
        invariant
            i <= c@.len(),
            used <= available,
            out@ == c@.take(i as int),
            fit_count(c@, available as int, 0, 0) == fit_count(c@, available as int, i as int, used as int),
            stop ==> fit_count(c@, available as int, i as int, used as int) == i,
        decreases c.len() - i + if stop { 0int } else { 1int },
    {
        let w = char_display_width(c[i]);
        if w > available - used {
            stop = true;
        } else {
            out.push(c[i]);
            assert(c@.take(i + 1) =~= c@.take(i as int).push(c@[i as int]));
            used = used + w;
            i += 1;
        }
    }
    out.push('\u{2026}');
    assert(out@ =~= c@.take(fit_count(c@, available as int, 0, 0)) + ellipsis());
    string_of(&out)
}

/// `s` padded with spaces on the right to `target` columns.
pub open spec fn padded(s: Seq<char>, target: nat) -> Seq<char> {
    if display_width(s) >= target {
        s
    } else {
        s + spaces((target - display_width(s)) as nat)
    }
}

/// `s` padded on the right to `target` columns (`padded`).
pub fn pad_to_display_width(s: &str, target: usize) -> (r: String)
    ensures
        r@ == padded(s@, target as nat),
{
    let w = width_capped(&chars_of(s), target);
    let mut out = s.to_owned();
    if w >= target {
        return out;
    }
    let mut k: usize = w;
    while k < target
        invariant
            w <= k <= target,
            w == display_width(s@),
            out@ == s@ + spaces((k - w) as nat),
        decreases target - k,
    {
        out.push(' ');
        assert(spaces((k + 1 - w) as nat) =~= spaces((k - w) as nat).push(' '));
        k += 1;
    }
    out
}

/// The name a key binding uses for a key: the character itself,
/// `ctrl+` and the lower-cased character with Control, `<Up>`, `<Down>`,
/// `<Left>`, `<Right>`, `<Enter>`, `<Esc>`; other keys have no name (empty).
pub open spec fn binding_name(k: Key) -> Seq<char> {
    match k.code {
        KeyCode::Char(c) => if k.ctrl {
            "ctrl+"@.push(lower(c))
        } else {
            seq![c]
        },
        KeyCode::Up => "<Up>"@,
        KeyCode::Down => "<Down>"@,
        KeyCode::Left => "<Left>"@,
        KeyCode::Right => "<Right>"@,
        KeyCode::Enter => "<Enter>"@,
        KeyCode::Esc => "<Esc>"@,
        _ => Seq::empty(),
    }
}

/// The binding name of a key (`binding_name`).
pub fn key_binding_name(key: Key) -> (r: String)
    ensures
        r@ == binding_name(key),
{
    match key.code {
        KeyCode::Char(c) => {
            if key.ctrl {
                let mut s = String::from_str("ctrl+");
                s.push(lower_char(c));
                s
            } else {
                string_of(&[c])
            }
        },
        KeyCode::Up => String::from_str("<Up>"),
        KeyCode::Down => String::from_str("<Down>"),
        KeyCode::Left => String::from_str("<Left>"),
        KeyCode::Right => String::from_str("<Right>"),
        KeyCode::Enter => String::from_str("<Enter>"),
        KeyCode::Esc => String::from_str("<Esc>"),
        _ => String::new(),
    }
}


/// The value of the field `name` of `e`, or `missing`.
pub open spec fn field_or(e: Entry, name: Seq<char>, missing: Seq<char>) -> Seq<char> {
    match e.field(name) {
        Some(v) => v,
        None => missing,
    }
}

/// The value of the field `name` of `e`, or `missing`.
pub fn field_text(e: &Entry, name: &str, missing: &str) -> (r: String)
    ensures
        r@ == field_or(*e, name@, missing@),
{
    match e.get_field(name) {
        Some(v) => v.to_owned(),
        None => missing.to_owned(),
    }
}

/// `label` and the value of field `name`, as one line, when `e` has it.
pub open spec fn optional_line(e: Entry, name: Seq<char>, label: Seq<char>) -> Seq<Seq<char>> {
    match e.field(name) {
        Some(v) => seq![label + v],
        None => Seq::empty(),
    }
}

/// The lines of the plain preview of `e`: key and type, a blank line, the
/// title, authors, year, journal and DOI that it has, and its abstract
/// after a blank line and a heading.
pub open spec fn preview_lines(e: Entry) -> Seq<Seq<char>> {
    seq!["Citekey: "@ + e.id.0@, "Type: "@ + e.entry_type@, Seq::empty()] + optional_line(
        e,
        "title"@,
        "Title: "@,
    ) + optional_line(e, "author"@, "Author(s): "@) + match e.year_value() {
        Some(y) => seq!["Year: "@ + decimal(y)],
        None => Seq::empty(),
    } + optional_line(e, "journal"@, "Journal: "@) + optional_line(e, "doi"@, "DOI: "@)
        + match e.field("abstract"@) {
        Some(a) => seq![Seq::empty(), "Abstract:"@, a],
        None => Seq::empty(),
    }
}

/// Pushes `label` followed by the field `name` of `e` when present.
fn push_optional(out: &mut Vec<String>, e: &Entry, name: &str, label: &str)
    ensures
        texts(final(out)@) == texts(old(out)@) + optional_line(*e, name@, label@),
{
    match e.get_field(name) {
        Some(v) => {
            let mut line = String::from_str(label);
            line.append(v);
            out.push(line);
            assert(texts(out@) =~= texts(old(out)@).push(label@ + v@));
        },
        None => {
            assert(texts(out@) =~= texts(old(out)@));
        },
    }
}

/// The plain preview of `entry`: its lines (`preview_lines`) joined with
/// newlines.
pub fn format_preview_content(entry: &Entry) -> (r: String)
    ensures
        r@ == join_with(preview_lines(*entry), "\n"@),
{
    proof {
        reveal_strlit("");
        assert(""@ =~= Seq::<char>::empty());
    }
    let mut first = String::from_str("Citekey: ");
    first.append(entry.id.0.as_str());
    let mut second = String::from_str("Type: ");
    second.append(entry.entry_type.as_str());
    let mut lines: Vec<String> = vec![first, second, String::new()];
    push_optional(&mut lines, entry, "title", "Title: ");
    push_optional(&mut lines, entry, "author", "Author(s): ");
    match entry.year() {
        Some(y) => {
            let mut line = String::from_str("Year: ");
            line.append(decimal_text(y as usize).as_str());
            let ghost before = texts(lines@);
            lines.push(line);
            assert(texts(lines@) =~= before.push(line@));
        },
        None => {},
    }
    push_optional(&mut lines, entry, "journal", "Journal: ");
    push_optional(&mut lines, entry, "doi", "DOI: ");
    match entry.get_field("abstract") {
        Some(a) => {
            let ghost before = texts(lines@);
            lines.push(String::new());
            lines.push(String::from_str("Abstract:"));
            lines.push(a.to_owned());
            assert(texts(lines@) =~= before + seq![Seq::<char>::empty(), "Abstract:"@, a@]);
        },
        None => {},
    }
    assert(texts(lines@) =~= preview_lines(*entry));
    crate::services::notes::names::join_strings(&lines, "\n")
}

/// The placeholders of a preview template and the values put in their
/// place, in the order they are replaced.
pub open spec fn template_values(e: Entry) -> Seq<(Seq<char>, Seq<char>)> {
    seq![
        ("citekey"@, e.id.0@),
        ("entry_type"@, e.entry_type@),
        ("title"@, title_or(e, "N/A"@)),
        ("author"@, field_or(e, "author"@, "N/A"@)),
        ("year"@, year_or(e, Seq::empty())),
        ("journal"@, field_or(e, "journal"@, Seq::empty())),
        ("doi"@, field_or(e, "doi"@, Seq::empty())),
        ("abstract"@, field_or(e, "abstract"@, Seq::empty())),
        ("url"@, field_or(e, "url"@, Seq::empty())),
        ("publisher"@, field_or(e, "publisher"@, Seq::empty())),
        ("volume"@, field_or(e, "volume"@, Seq::empty())),
        ("number"@, field_or(e, "number"@, Seq::empty())),
        ("pages"@, field_or(e, "pages"@, Seq::empty())),
        ("booktitle"@, field_or(e, "booktitle"@, Seq::empty())),
        ("school"@, field_or(e, "school"@, Seq::empty())),
        ("institution"@, field_or(e, "institution"@, Seq::empty())),
        ("organization"@, field_or(e, "organization"@, Seq::empty())),
        ("edition"@, field_or(e, "edition"@, Seq::empty())),
        ("series"@, field_or(e, "series"@, Seq::empty())),
        ("address"@, field_or(e, "address"@, Seq::empty())),
        ("month"@, field_or(e, "month"@, Seq::empty())),
        ("note"@, field_or(e, "note"@, Seq::empty())),
        ("howpublished"@, field_or(e, "howpublished"@, Seq::empty())),
        ("chapter"@, field_or(e, "chapter"@, Seq::empty())),
    ]
}

/// `{name}`.
pub open spec fn braced(name: Seq<char>) -> Seq<char> {
    seq!['{'] + name + seq!['}']
}

/// A value between the markers that set it apart from the template's own
/// text (record and unit separators).
pub open spec fn marked(v: Seq<char>) -> Seq<char> {
    seq!['\u{1e}'] + v + seq!['\u{1f}']
}

/// `s` with each `{name}` of `rs`, in order, replaced by its marked value.
pub open spec fn apply_values(s: Seq<char>, rs: Seq<(Seq<char>, Seq<char>)>) -> Seq<char>
    decreases rs.len(),
{
    if rs.len() == 0 {
        s
    } else {
        replace_all(apply_values(s, rs.drop_last()), braced(rs.last().0), marked(rs.last().1))
    }
}

/// A preview template filled in for `entry` (`apply_values` with
/// `template_values`).
pub fn render_preview_template(template: &str, entry: &Entry) -> (r: String)
    ensures
        r@ == apply_values(template@, template_values(*entry)),
{
    proof {
        reveal_strlit("");
        assert(""@ =~= Seq::<char>::empty());
    }
    let values: Vec<(String, String)> = vec![
        (String::from_str("citekey"), entry.id.0.clone()),
        (String::from_str("entry_type"), entry.entry_type.clone()),
        (String::from_str("title"), crate::cli::title_text(entry, "N/A")),
        (String::from_str("author"), field_text(entry, "author", "N/A")),
        (String::from_str("year"), crate::cli::year_text(entry, "")),
        (String::from_str("journal"), field_text(entry, "journal", "")),
        (String::from_str("doi"), field_text(entry, "doi", "")),
        (String::from_str("abstract"), field_text(entry, "abstract", "")),
        (String::from_str("url"), field_text(entry, "url", "")),
        (String::from_str("publisher"), field_text(entry, "publisher", "")),
        (String::from_str("volume"), field_text(entry, "volume", "")),
        (String::from_str("number"), field_text(entry, "number", "")),
        (String::from_str("pages"), field_text(entry, "pages", "")),
        (String::from_str("booktitle"), field_text(entry, "booktitle", "")),
        (String::from_str("school"), field_text(entry, "school", "")),
        (String::from_str("institution"), field_text(entry, "institution", "")),
        (String::from_str("organization"), field_text(entry, "organization", "")),
        (String::from_str("edition"), field_text(entry, "edition", "")),
        (String::from_str("series"), field_text(entry, "series", "")),
        (String::from_str("address"), field_text(entry, "address", "")),
        (String::from_str("month"), field_text(entry, "month", "")),
        (String::from_str("note"), field_text(entry, "note", "")),
        (String::from_str("howpublished"), field_text(entry, "howpublished", "")),
        (String::from_str("chapter"), field_text(entry, "chapter", "")),
    ];
    let ghost vs = template_values(*entry);
    assert(values@.map_values(|p: (String, String)| (p.0@, p.1@)) =~= vs);
    let mut out = chars_of(template);
    let mut i: usize = 0;
    while i < values.len()
        invariant
            i <= values@.len(),
            values@.map_values(|p: (String, String)| (p.0@, p.1@)) == vs,
            out@ == apply_values(template@, vs.take(i as int)),
        decreases values.len() - i,
    {
        assert(vs[i as int] == (values@[i as int].0@, values@[i as int].1@));
        let mut pat: Vec<char> = vec!['{'];
        let name = chars_of(values[i].0.as_str());
        crate::text::push_all(&mut pat, &name);
        pat.push('}');
        let mut rep: Vec<char> = vec!['\u{1e}'];
        let value = chars_of(values[i].1.as_str());
        crate::text::push_all(&mut rep, &value);
        rep.push('\u{1f}');
        assert(pat@ =~= braced(vs[i as int].0));
        assert(rep@ =~= marked(vs[i as int].1));
        assert(vs.take(i + 1).drop_last() =~= vs.take(i as int));
        out = replace_chars(&out, &pat, &rep);
        i += 1;
    }
    assert(vs.take(i as int) =~= vs);
    string_of(&out)
}

/// The preview with pattern `idx` of `patterns`, or the plain preview when
/// there is no such pattern.
pub open spec fn preview_text(e: Entry, patterns: Seq<PreviewPattern>, idx: int) -> Seq<char> {
    if 0 <= idx < patterns.len() {
        apply_values(patterns[idx].template@, template_values(e))
    } else {
        join_with(preview_lines(e), "\n"@)
    }
}

/// The preview of `entry` by pattern `pattern_idx` (`preview_text`).
pub fn format_preview_with_template(entry: &Entry, patterns: &[PreviewPattern], pattern_idx: usize) -> (r: String)
    ensures
        r@ == preview_text(*entry, patterns@, pattern_idx as int),
{
    if patterns.len() == 0 || pattern_idx >= patterns.len() {
        format_preview_content(entry)
    } else {
        render_preview_template(patterns[pattern_idx].template.as_str(), entry)
    }
}

} // verus!
