//! Rendering note templates and file-name patterns: placeholder values,
//! formats and transforms.
use vstd::prelude::*;

use crate::config::validate::{parse_index, parse_index_exec};
use crate::domain::Entry;
use crate::text::{
    chars_eq, chars_of, decimal, decimal_text, ends_with, ends_with_exec, find, find_exec,
    lemma_find_from_bounds, lower_seq, slice_range, split, split_exec, starts_with,
    starts_with_exec, string_of, to_ascii_lower, trim, trim_chars,
};
use super::clock::{format_time, lowercase_of, strftime, to_lowercase, to_uppercase, uppercase_of, LocalTime};
use super::names::{
    extract_surname, format_single_author, formatted_author, join_strings, join_with,
    replace_all, replace_chars, sanitize_filename_segment, sanitized, surname_of, texts,
    truncate_chars,
};
use super::pattern::{
    lemma_next_placeholder, lemma_placeholder_at, next_placeholder, next_placeholder_exec,
    placeholder_at, Found, Placeholder,
};

verus! {

/// A placeholder's value: a text or a list of texts.
pub enum Value {
    Text(String),
    List(Vec<String>),
}

/// The abstract form of a value.
pub enum ValueView {
    Text(Seq<char>),
    List(Seq<Seq<char>>),
}

impl Value {
    pub open spec fn view_of(&self) -> ValueView {
        match self {
            Value::Text(s) => ValueView::Text(s@),
            Value::List(l) => ValueView::List(texts(l@)),
        }
    }

    /// The value as text: a list joined with `, `.
    pub fn to_string_val(self) -> (r: String)
        ensures
            r@ == value_text(self.view_of()),
    {
        match self {
            Value::Text(s) => s,
            Value::List(l) => join_strings(&l, ", "),
        }
    }
}

/// The text of a value: a list joined with `, `.
pub open spec fn value_text(v: ValueView) -> Seq<char> {
    match v {
        ValueView::Text(s) => s,
        ValueView::List(l) => join_with(l, ", "@),
    }
}

/// `s` without its empty parts.
pub open spec fn nonempty_parts(s: Seq<Seq<char>>) -> Seq<Seq<char>>
    decreases s.len(),
{
    if s.len() == 0 {
        s
    } else {
        nonempty_parts(s.drop_last()) + if s.last().len() > 0 {
            seq![s.last()]
        } else {
            Seq::empty()
        }
    }
}

/// The values an entry offers to templates at the moment `now`.
pub struct NoteValuesView {
    pub citekey: Seq<char>,
    pub authors: Seq<Seq<char>>,
    pub surnames: Seq<Seq<char>>,
    pub title: Seq<char>,
    pub filename_title: Seq<char>,
    pub year: Seq<char>,
    pub now: LocalTime,
}

/// The longest title used in a note's file name, in characters.
pub const MAX_TITLE_LEN: usize = 48;

/// The entry's title, trimmed, or `Untitled`.
pub open spec fn title_of(e: Entry) -> Seq<char> {
    trim(
        match e.field(crate::domain::title_key()) {
            Some(t) => t,
            None => "Untitled"@,
        },
    )
}

/// The values `e` offers to templates at the moment `now`: its key, its
/// authors as written, their surnames, its title (and a title cut to 48
/// characters for file names), its year or `Unknown`.
pub open spec fn values_of(e: Entry, now: LocalTime) -> NoteValuesView {
    let authors = nonempty_parts(e.author_names().map_values(|a: Seq<char>| trim(a)));
    let title = title_of(e);
    NoteValuesView {
        citekey: e.id.0@,
        authors,
        surnames: nonempty_parts(authors.map_values(|a: Seq<char>| surname_of(a))),
        title,
        filename_title: if title.len() <= MAX_TITLE_LEN {
            title
        } else {
            title.take(MAX_TITLE_LEN as int)
        },
        year: match e.year_value() {
            Some(y) => decimal(y),
            None => "Unknown"@,
        },
        now,
    }
}

/// The message for a date format that `chrono` rejects.
pub open spec fn date_error(fmt: Seq<char>) -> Seq<char> {
    "invalid date format '"@ + fmt + "'"@
}

/// The moment `now` formatted with `fmt`, as a value.
pub open spec fn time_value(now: LocalTime, fmt: Seq<char>) -> Result<ValueView, Seq<char>> {
    match strftime(now.secs, now.nanos, now.offset, fmt) {
        Some(s) => Ok(ValueView::Text(s)),
        None => Err(date_error(fmt)),
    }
}

/// The built-in value of the variable `var`, if it is one: `citekey`,
/// `authors`, `title` (cut for file names), `filename_title`, `year`,
/// `date`, `time`, `datetime`.
pub open spec fn builtin_value(v: NoteValuesView, var: Seq<char>, filename_mode: bool) -> Option<
    Result<ValueView, Seq<char>>,
> {
    if var == "citekey"@ {
        Some(Ok(ValueView::Text(v.citekey)))
    } else if var == "authors"@ {
        Some(Ok(ValueView::List(v.authors)))
    } else if var == "title"@ {
        Some(
            Ok(
                ValueView::Text(
                    if filename_mode {
                        v.filename_title
                    } else {
                        v.title
                    },
                ),
            ),
        )
    } else if var == "filename_title"@ {
        Some(Ok(ValueView::Text(v.filename_title)))
    } else if var == "year"@ {
        Some(Ok(ValueView::Text(v.year)))
    } else if var == "date"@ {
        Some(time_value(v.now, "%Y-%m-%d"@))
    } else if var == "time"@ {
        Some(time_value(v.now, "%H:%M:%S"@))
    } else if var == "datetime"@ {
        Some(time_value(v.now, "%Y-%m-%d %H:%M:%S"@))
    } else {
        None
    }
}

/// A placeholder's content split into a format (when it starts with `%`:
/// up to the first `:`) and the non-empty `:`-separated transforms.
pub open spec fn content_parts(content: Option<Seq<char>>) -> (Option<Seq<char>>, Seq<Seq<char>>) {
    match content {
        None => (None, Seq::empty()),
        Some(c) => if c.len() == 0 {
            (None, Seq::empty())
        } else if c[0] == '%' {
            match find(c, seq![':']) {
                Some(pos) => (
                    Some(c.subrange(0, pos)),
                    nonempty_parts(split(c.subrange(pos + 1, c.len() as int), seq![':'])),
                ),
                None => (Some(c), Seq::empty()),
            }
        } else {
            (None, nonempty_parts(split(c, seq![':'])))
        },
    }
}

/// The smaller of two numbers.
pub open spec fn min_nat(a: nat, b: nat) -> nat {
    if a < b {
        a
    } else {
        b
    }
}

/// `slice(start,end)` on a list: missing or unreadable bounds default to
/// the whole list, and the bounds are clamped to it.
pub open spec fn list_slice(l: Seq<Seq<char>>, args: Seq<char>) -> Seq<Seq<char>> {
    let (ss, es) = match find(args, seq![',']) {
        Some(i) => (args.subrange(0, i), args.subrange(i + 1, args.len() as int)),
        None => (args, Seq::empty()),
    };
    let start = match parse_index(ss) {
        Some(n) => n,
        None => 0,
    };
    let end0 = if trim(es).len() == 0 {
        l.len()
    } else {
        match parse_index(es) {
            Some(n) => n,
            None => l.len(),
        }
    };
    let end = min_nat(end0, l.len());
    let start2 = min_nat(start, end);
    l.subrange(start2 as int, end as int)
}

/// `slice(start,end)` on a text: the characters from `start` up to `end`
/// (clamped); empty when `start` is past the end or not before `end`.
pub open spec fn text_slice(s: Seq<char>, args: Seq<char>) -> Result<Seq<char>, Seq<char>> {
    match find(args, seq![',']) {
        None => Err("slice transform must be formatted as slice(start,end)"@),
        Some(i) => match parse_index(args.subrange(0, i)) {
            None => Err("invalid slice start"@),
            Some(st) => match parse_index(args.subrange(i + 1, args.len() as int)) {
                None => Err("invalid slice end"@),
                Some(en) => if st >= s.len() || st >= en {
                    Ok(Seq::empty())
                } else {
                    Ok(s.subrange(st as int, min_nat(en, s.len()) as int))
                },
            },
        },
    }
}

/// Whether every character of `s` is ASCII.
pub open spec fn is_ascii_text(s: Seq<char>) -> bool {
    forall|i: int| 0 <= i < s.len() ==> (#[trigger] s[i] as u32) < 128
}

/// ASCII upper-casing of one character.
pub open spec fn upper(c: char) -> char {
    if 'a' <= c && c <= 'z' {
        ((c as u32) - 32) as char
    } else {
        c
    }
}

/// ASCII upper-casing of a sequence.
pub open spec fn upper_seq(s: Seq<char>) -> Seq<char> {
    s.map_values(|c: char| upper(c))
}

/// `s` upper-cased (`str::to_uppercase`), which on ASCII text is ASCII
/// upper-casing.
pub open spec fn upper_text(s: Seq<char>) -> Seq<char> {
    if is_ascii_text(s) {
        upper_seq(s)
    } else {
        uppercase_of(s)
    }
}

/// `s` lower-cased (`str::to_lowercase`), which on ASCII text is ASCII
/// lower-casing.
pub open spec fn lower_text(s: Seq<char>) -> Seq<char> {
    if is_ascii_text(s) {
        lower_seq(s)
    } else {
        lowercase_of(s)
    }
}

/// One transform applied to a value: `slice(start,end)`,
/// `join(separator)` (the items of a list joined with the separator; in a
/// text, each `, ` replaced by it), `join` (for
/// authors: their surnames joined with `-` in file names, `, ` elsewhere),
/// `lower`, `upper`.
pub open spec fn single_transform(
    var: Seq<char>,
    v: ValueView,
    t: Seq<char>,
    vals: NoteValuesView,
    filename_mode: bool,
) -> Result<ValueView, Seq<char>> {
    if starts_with(t, "slice("@) && ends_with(t, ")"@) {
        let args = t.subrange(6, t.len() - 1);
        match v {
            ValueView::List(l) => Ok(ValueView::List(list_slice(l, args))),
            ValueView::Text(s) => match text_slice(s, args) {
                Ok(x) => Ok(ValueView::Text(x)),
                Err(m) => Err(m),
            },
        }
    } else if starts_with(t, "join("@) && ends_with(t, ")"@) {
        let sep0 = t.subrange(5, t.len() - 1);
        let sep = if sep0.len() == 0 {
            ", "@
        } else {
            sep0
        };
        match v {
            ValueView::List(l) => Ok(ValueView::Text(join_with(l, sep))),
            ValueView::Text(s) => Ok(ValueView::Text(replace_all(s, ", "@, sep))),
        }
    } else if t == "join"@ {
        if var == "authors"@ {
            Ok(
                ValueView::Text(
                    join_with(
                        vals.surnames,
                        if filename_mode {
                            "-"@
                        } else {
                            ", "@
                        },
                    ),
                ),
            )
        } else {
            Ok(ValueView::Text(value_text(v)))
        }
    } else if t == "lower"@ {
        Ok(ValueView::Text(lower_text(value_text(v))))
    } else if t == "upper"@ {
        Ok(ValueView::Text(upper_text(value_text(v))))
    } else {
        Err("unsupported transform '"@ + t + "' for variable '"@ + var + "'"@)
    }
}

/// The transforms `ts[0..n]` applied in order.
pub open spec fn apply_transforms(
    var: Seq<char>,
    v: ValueView,
    ts: Seq<Seq<char>>,
    n: int,
    vals: NoteValuesView,
    filename_mode: bool,
) -> Result<ValueView, Seq<char>>
    decreases n,
{
    if n <= 0 {
        Ok(v)
    } else {
        match apply_transforms(var, v, ts, n - 1, vals, filename_mode) {
            Err(m) => Err(m),
            Ok(x) => single_transform(var, x, ts[n - 1], vals, filename_mode),
        }
    }
}

/// Whether `var` names one of the clock variables.
pub open spec fn is_time_var(var: Seq<char>) -> bool {
    var == "date"@ || var == "time"@ || var == "datetime"@
}

/// A value after its format: each author formatted for `authors` lists,
/// the moment re-formatted for clock variables, unchanged otherwise.
pub open spec fn formatted_value(
    var: Seq<char>,
    v: ValueView,
    fmt: Option<Seq<char>>,
    vals: NoteValuesView,
) -> Result<ValueView, Seq<char>> {
    match fmt {
        None => Ok(v),
        Some(f) => if var == "authors"@ && v is List {
            Ok(ValueView::List(v->List_0.map_values(|a: Seq<char>| formatted_author(a, f))))
        } else if is_time_var(var) && v is Text {
            time_value(vals.now, f)
        } else {
            Ok(v)
        },
    }
}

/// The text of a placeholder with value `v`: its format, then its
/// transforms, applied.
pub open spec fn chain_text(
    var: Seq<char>,
    v: ValueView,
    content: Option<Seq<char>>,
    vals: NoteValuesView,
    filename_mode: bool,
) -> Result<Seq<char>, Seq<char>> {
    let (fmt, ts) = content_parts(content);
    match formatted_value(var, v, fmt, vals) {
        Err(m) => Err(m),
        Ok(x) => match apply_transforms(var, x, ts, ts.len() as int, vals, filename_mode) {
            Err(m) => Err(m),
            Ok(y) => Ok(value_text(y)),
        },
    }
}

/// The optional range `r` of `t` as text.
pub open spec fn range_of(t: Seq<char>, r: Option<(int, int)>) -> Option<Seq<char>> {
    match r {
        Some(p) => Some(t.subrange(p.0, p.1)),
        None => None,
    }
}

/// The text a placeholder of `t` stands for: a built-in value or else the
/// entry's field of that (ASCII lower-cased) name, through its format and
/// transforms; else its default; else the placeholder itself.
pub open spec fn resolve(
    t: Seq<char>,
    ph: Placeholder,
    e: Entry,
    vals: NoteValuesView,
    filename_mode: bool,
) -> Result<Seq<char>, Seq<char>> {
    let var = t.subrange(ph.name.0, ph.name.1);
    let content = range_of(t, ph.content);
    match builtin_value(vals, var, filename_mode) {
        Some(Err(m)) => Err(m),
        Some(Ok(v)) => chain_text(var, v, content, vals, filename_mode),
        None => match e.field(lower_seq(var)) {
            Some(fv) => chain_text(var, ValueView::Text(fv), content, vals, filename_mode),
            None => match range_of(t, ph.default) {
                Some(d) => Ok(d),
                None => Ok(t.subrange(ph.start, ph.end)),
            },
        },
    }
}

/// `t` from `p` on with every placeholder replaced by its text (made safe
/// for file names in file-name mode); the first failure stops it.
pub open spec fn render_from(
    t: Seq<char>,
    p: int,
    e: Entry,
    vals: NoteValuesView,
    filename_mode: bool,
) -> Result<Seq<char>, Seq<char>>
    decreases t.len() + 1 - p,
{
    if p < 0 || p > t.len() {
        Ok(Seq::empty())
    } else {
        match next_placeholder(t, p) {
            None => Ok(t.subrange(p, t.len() as int)),
            Some(s) => {
                proof {
                    lemma_next_placeholder(t, p);
                    lemma_placeholder_at(t, s);
                }
                let ph = placeholder_at(t, s)->Some_0;
                match resolve(t, ph, e, vals, filename_mode) {
                    Err(m) => Err(m),
                    Ok(v) => {
                        let piece = if filename_mode {
                            sanitized(v)
                        } else {
                            v
                        };
                        match render_from(t, ph.end, e, vals, filename_mode) {
                            Err(m) => Err(m),
                            Ok(rest) => Ok(t.subrange(p, s) + piece + rest),
                        }
                    },
                }
            },
        }
    }
}

/// `o` followed by the outcome `r`.
pub open spec fn prepend(o: Seq<char>, r: Result<Seq<char>, Seq<char>>) -> Result<Seq<char>, Seq<char>> {
    match r {
        Ok(x) => Ok(o + x),
        Err(m) => Err(m),
    }
}

/// The values an entry offers to templates.
pub struct NoteValues {
    pub citekey: String,
    pub authors: Vec<String>,
    pub author_surnames: Vec<String>,
    pub title: String,
    pub filename_title: String,
    pub year: String,
    pub now: LocalTime,
}

impl NoteValues {
    pub open spec fn view_of(&self) -> NoteValuesView {
        NoteValuesView {
            citekey: self.citekey@,
            authors: texts(self.authors@),
            surnames: texts(self.author_surnames@),
            title: self.title@,
            filename_title: self.filename_title@,
            year: self.year@,
            now: self.now,
        }
    }

    /// The values of `entry` at the moment `now`.
    pub fn from_entry(entry: &Entry, now: LocalTime) -> (r: NoteValues)
        ensures
            r.view_of() == values_of(*entry, now),
    {
        let names = entry.authors();
        let ghost names_v = entry.author_names();
        let ghost trimmed = names_v.map_values(|a: Seq<char>| trim(a));
        let mut authors: Vec<String> = Vec::new();
        let mut i: usize = 0;
        assert(texts(authors@) =~= nonempty_parts(trimmed.take(0)));
        while i < names.len()
            invariant
                i <= names@.len(),
                names@.len() == names_v.len(),
                forall|k: int| 0 <= k < names@.len() ==> #[trigger] names@[k]@ == names_v[k],
                trimmed == names_v.map_values(|a: Seq<char>| trim(a)),
                texts(authors@) == nonempty_parts(trimmed.take(i as int)),
            decreases names.len() - i,
        {
            assert(trimmed.take(i + 1).drop_last() =~= trimmed.take(i as int));
            assert(trimmed.take(i + 1).last() == trim(names@[i as int]@));
            let a = trim_chars(&chars_of(names[i].as_str()));
            let ghost before = texts(authors@);
            if a.len() > 0 {
                authors.push(string_of(&a));
                assert(texts(authors@) =~= before.push(a@));
            }
            i += 1;
            assert(texts(authors@) =~= nonempty_parts(trimmed.take(i as int)));
        }
        assert(trimmed.take(names@.len() as int) =~= trimmed);
        let ghost av = texts(authors@);
        let ghost sv = av.map_values(|a: Seq<char>| surname_of(a));
        let mut surnames: Vec<String> = Vec::new();
        let mut j: usize = 0;
        assert(texts(surnames@) =~= nonempty_parts(sv.take(0)));
        while j < authors.len()
            invariant
                j <= authors@.len(),
                av == texts(authors@),
                sv == av.map_values(|a: Seq<char>| surname_of(a)),
                texts(surnames@) == nonempty_parts(sv.take(j as int)),
            decreases authors.len() - j,
        {
            assert(sv.take(j + 1).drop_last() =~= sv.take(j as int));
            assert(sv.take(j + 1).last() == surname_of(authors@[j as int]@));
            let s = extract_surname(authors[j].as_str());
            let ghost before = texts(surnames@);
            if !s.as_str().is_empty() {
                surnames.push(s);
                assert(texts(surnames@) =~= before.push(sv[j as int]));
            }
            j += 1;
            assert(texts(surnames@) =~= nonempty_parts(sv.take(j as int)));
        }
        assert(sv.take(authors@.len() as int) =~= sv);
        proof {
            reveal_strlit("title");
            assert("title"@ =~= crate::domain::title_key());
            assert(lower_seq(crate::domain::title_key()) =~= crate::domain::title_key());
        }
        let title = match entry.get_field("title") {
            Some(t) => string_of(&trim_chars(&chars_of(t))),
            None => string_of(&trim_chars(&chars_of("Untitled"))),
        };
        let filename_title = truncate_chars(title.as_str(), MAX_TITLE_LEN);
        let year = match entry.year() {
            Some(y) => decimal_text(y as usize),
            None => String::from_str("Unknown"),
        };
        NoteValues {
            citekey: entry.id.0.clone(),
            authors,
            author_surnames: surnames,
            title,
            filename_title,
            year,
            now,
        }
    }
}

/// A copy of a list of strings.
pub fn clone_strings(v: &Vec<String>) -> (r: Vec<String>)
    ensures
        texts(r@) == texts(v@),
{
    let mut out: Vec<String> = Vec::new();
    let mut i: usize = 0;
    while i < v.len()
        invariant
            i <= v@.len(),
            texts(out@) == texts(v@).take(i as int),
        decreases v.len() - i,
    {
        let c = v[i].clone();
        let ghost prev = texts(out@);
        out.push(c);
        assert(texts(out@) =~= prev.push(c@));
        i += 1;
        assert(texts(out@) =~= texts(v@).take(i as int));
    }
    assert(texts(v@).take(i as int) =~= texts(v@));
    out
}

/// The moment `now` formatted with `fmt`, as a value.
fn time_value_exec(now: LocalTime, fmt: &str) -> (r: Result<Value, String>)
    ensures
        match time_value(now, fmt@) {
            Ok(v) => r matches Ok(x) && x.view_of() == v,
            Err(m) => r matches Err(x) && x@ == m,
        },
{
    match format_time(now, fmt) {
        Some(s) => Ok(Value::Text(s)),
        None => {
            let mut m = String::from_str("invalid date format '");
            m.append(fmt);
            m.append("'");
            Err(m)
        },
    }
}

/// Whether `var` is the name `name`.
fn is_named(var: &[char], name: &str) -> (r: bool)
    ensures
        r == (var@ == name@),
{
    chars_eq(var, &chars_of(name))
}

/// The built-in value of `var`, if it is one.
fn builtin_value_exec(vals: &NoteValues, var: &[char], filename_mode: bool) -> (r: Option<
    Result<Value, String>,
>)
    ensures
        match builtin_value(vals.view_of(), var@, filename_mode) {
            None => r is None,
            Some(Ok(v)) => r matches Some(Ok(x)) && x.view_of() == v,
            Some(Err(m)) => r matches Some(Err(x)) && x@ == m,
        },
{
    if is_named(var, "citekey") {
        Some(Ok(Value::Text(vals.citekey.clone())))
    } else if is_named(var, "authors") {
        Some(Ok(Value::List(clone_strings(&vals.authors))))
    } else if is_named(var, "title") {
        if filename_mode {
            Some(Ok(Value::Text(vals.filename_title.clone())))
        } else {
            Some(Ok(Value::Text(vals.title.clone())))
        }
    } else if is_named(var, "filename_title") {
        Some(Ok(Value::Text(vals.filename_title.clone())))
    } else if is_named(var, "year") {
        Some(Ok(Value::Text(vals.year.clone())))
    } else if is_named(var, "date") {
        Some(time_value_exec(vals.now, "%Y-%m-%d"))
    } else if is_named(var, "time") {
        Some(time_value_exec(vals.now, "%H:%M:%S"))
    } else if is_named(var, "datetime") {
        Some(time_value_exec(vals.now, "%Y-%m-%d %H:%M:%S"))
    } else {
        None
    }
}

/// The non-empty parts of `parts`.
fn nonempty_exec(parts: Vec<Vec<char>>) -> (r: Vec<Vec<char>>)
    ensures
        r@.map_values(|w: Vec<char>| w@) == nonempty_parts(parts@.map_values(|w: Vec<char>| w@)),
{
    let ghost pv = parts@.map_values(|w: Vec<char>| w@);
    let mut out: Vec<Vec<char>> = Vec::new();
    let mut i: usize = 0;
    assert(out@.map_values(|w: Vec<char>| w@) =~= nonempty_parts(pv.take(0)));
    while i < parts.len()
        invariant
            i <= parts@.len(),
            pv == parts@.map_values(|w: Vec<char>| w@),
            out@.map_values(|w: Vec<char>| w@) == nonempty_parts(pv.take(i as int)),
        decreases parts.len() - i,
    {
        assert(pv.take(i + 1).drop_last() =~= pv.take(i as int));
        assert(pv.take(i + 1).last() == parts@[i as int]@);
        let ghost before = out@.map_values(|w: Vec<char>| w@);
        if parts[i].len() > 0 {
            out.push(slice_range(&parts[i], 0, parts[i].len()));
            assert(parts@[i as int]@.subrange(0, parts@[i as int]@.len() as int) =~= parts@[i as int]@);
            assert(out@.map_values(|w: Vec<char>| w@) =~= before.push(parts@[i as int]@));
        }
        i += 1;
        assert(out@.map_values(|w: Vec<char>| w@) =~= nonempty_parts(pv.take(i as int)));
    }
    assert(pv.take(parts@.len() as int) =~= pv);
    out
}

/// A placeholder's content split into format and transforms.
fn content_parts_exec(content: Option<Vec<char>>) -> (r: (Option<Vec<char>>, Vec<Vec<char>>))
    ensures
        ({
            let cv = match content {
                Some(c) => Some(c@),
                None => None,
            };
            &&& match content_parts(cv).0 {
                Some(f) => r.0 matches Some(x) && x@ == f,
                None => r.0 is None,
            }
            &&& r.1@.map_values(|w: Vec<char>| w@) == content_parts(cv).1
        }),
{
    let c = match content {
        None => {
            let e: Vec<Vec<char>> = Vec::new();
            assert(e@.map_values(|w: Vec<char>| w@) =~= Seq::<Seq<char>>::empty());
            return (None, e);
        },
        Some(c) => c,
    };
    if c.len() == 0 {
        let e: Vec<Vec<char>> = Vec::new();
        assert(e@.map_values(|w: Vec<char>| w@) =~= Seq::<Seq<char>>::empty());
        return (None, e);
    }
    let colon: Vec<char> = vec![':'];
    assert(colon@ =~= seq![':']);
    if c[0] == '%' {
        proof {
            lemma_find_from_bounds(c@, colon@, 0);
        }
        match find_exec(&c, &colon, 0) {
            Some(pos) => {
                let f = slice_range(&c, 0, pos);
                let rest = slice_range(&c, pos + 1, c.len());
                let parts = split_exec(&rest, &colon);
                assert(parts@.map_values(|w: Vec<char>| w@) =~= split(rest@, seq![':']));
                (Some(f), nonempty_exec(parts))
            },
            None => {
                let e: Vec<Vec<char>> = Vec::new();
                assert(e@.map_values(|w: Vec<char>| w@) =~= Seq::<Seq<char>>::empty());
                (Some(c), e)
            },
        }
    } else {
        let parts = split_exec(&c, &colon);
        assert(parts@.map_values(|w: Vec<char>| w@) =~= split(c@, seq![':']));
        (None, nonempty_exec(parts))
    }
}

/// The parts of `args` around its first comma (the whole and nothing when
/// it has none).
fn split_args(args: &[char]) -> (r: (Vec<char>, Option<Vec<char>>))
    ensures
        match find(args@, seq![',']) {
            Some(i) => r.0@ == args@.subrange(0, i) && (r.1 matches Some(e) && e@ == args@.subrange(
                i + 1,
                args@.len() as int,
            )),
            None => r.0@ == args@ && r.1 is None,
        },
{
    let comma: Vec<char> = vec![','];
    assert(comma@ =~= seq![',']);
    proof {
        lemma_find_from_bounds(args@, comma@, 0);
    }
    match find_exec(args, &comma, 0) {
        Some(i) => (slice_range(args, 0, i), Some(slice_range(args, i + 1, args.len()))),
        None => {
            assert(args@.subrange(0, args@.len() as int) =~= args@);
            (slice_range(args, 0, args.len()), None)
        },
    }
}

/// `slice(start,end)` on a list.
fn list_slice_exec(l: Vec<String>, args: &[char]) -> (r: Vec<String>)
    ensures
        texts(r@) == list_slice(texts(l@), args@),
{
    let (ss, es) = split_args(args);
    let es = match es {
        Some(e) => e,
        None => Vec::new(),
    };
    let start: usize = match parse_index_exec(&ss) {
        Some(n) => n,
        None => 0,
    };
    let n = l.len();
    let end0: usize = if trim_chars(&es).len() == 0 {
        n
    } else {
        match parse_index_exec(&es) {
            Some(v) => v,
            None => n,
        }
    };
    let end = if end0 < n {
        end0
    } else {
        n
    };
    let start2 = if start < end {
        start
    } else {
        end
    };
    let mut out: Vec<String> = Vec::new();
    let mut k = start2;
    while k < end
        invariant
            start2 <= k <= end <= l@.len(),
            texts(out@) == texts(l@).subrange(start2 as int, k as int),
        decreases end - k,
    {
        let c = l[k].clone();
        let ghost prev = texts(out@);
        out.push(c);
        assert(texts(out@) =~= prev.push(c@));
        k += 1;
        assert(texts(out@) =~= texts(l@).subrange(start2 as int, k as int));
    }
    proof {
        let args_v = args@;
        assert(es@ == (match find(args_v, seq![',']) {
            Some(i) => args_v.subrange(i + 1, args_v.len() as int),
            None => Seq::<char>::empty(),
        }));
    }
    out
}

/// `slice(start,end)` on a text.
fn text_slice_exec(s: &str, args: &[char]) -> (r: Result<String, String>)
    ensures
        match text_slice(s@, args@) {
            Ok(x) => r matches Ok(y) && y@ == x,
            Err(m) => r matches Err(y) && y@ == m,
        },
{
    let (ss, es) = split_args(args);
    let es = match es {
        None => return Err(String::from_str("slice transform must be formatted as slice(start,end)")),
        Some(e) => e,
    };
    let st = match parse_index_exec(&ss) {
        None => return Err(String::from_str("invalid slice start")),
        Some(v) => v,
    };
    let en = match parse_index_exec(&es) {
        None => return Err(String::from_str("invalid slice end")),
        Some(v) => v,
    };
    let c = chars_of(s);
    if st >= c.len() || st >= en {
        return Ok(String::new());
    }
    let e = if en < c.len() {
        en
    } else {
        c.len()
    };
    Ok(string_of(&slice_range(&c, st, e)))
}

/// Whether `t` is `open` ... `)` with `open` of length `n`; then the text
/// between.
fn call_args(t: &[char], open: &str) -> (r: Option<Vec<char>>)
    requires
        open@.len() > 0,
        open@.last() != ')',
    ensures
        (starts_with(t@, open@) && ends_with(t@, ")"@)) ==> (r matches Some(a) && t@.len() >= open@.len() + 1
            && a@ == t@.subrange(open@.len() as int, t@.len() - 1)),
        !(starts_with(t@, open@) && ends_with(t@, ")"@)) ==> r is None,
{
    let o = chars_of(open);
    let close = chars_of(")");
    proof {
        reveal_strlit(")");
    }
    assert(close@ =~= seq![')']);
    if starts_with_exec(t, &o) && ends_with_exec(t, &close) {
        if t.len() <= o.len() {
            // The last character of `open` would have to be `)`.
            proof {
                assert(t@.len() == o@.len());
                assert(t@.subrange(0, o@.len() as int) =~= t@);
                assert(t@.subrange(t@.len() - 1, t@.len() as int)[0] == t@.last());
                assert(t@.last() == ')');
                assert(o@.last() == t@.last());
            }
            return None;
        }
        Some(slice_range(t, o.len(), t.len() - 1))
    } else {
        None
    }
}

/// One transform applied to a value.
fn single_transform_exec(
    var: &[char],
    v: Value,
    t: &[char],
    vals: &NoteValues,
    filename_mode: bool,
) -> (r: Result<Value, String>)
    ensures
        match single_transform(var@, v.view_of(), t@, vals.view_of(), filename_mode) {
            Ok(x) => r matches Ok(y) && y.view_of() == x,
            Err(m) => r matches Err(y) && y@ == m,
        },
{
    proof {
        reveal_strlit("slice(");
        reveal_strlit("join(");
        reveal_strlit(", ");
    }
    if let Some(args) = call_args(t, "slice(") {
        return match v {
            Value::List(l) => Ok(Value::List(list_slice_exec(l, &args))),
            Value::Text(s) => match text_slice_exec(s.as_str(), &args) {
                Ok(x) => Ok(Value::Text(x)),
                Err(m) => Err(m),
            },
        };
    }
    if let Some(sep0) = call_args(t, "join(") {
        let sep = if sep0.len() == 0 {
            chars_of(", ")
        } else {
            sep0
        };
        return match v {
            Value::List(l) => {
                let sep_text = string_of(&sep);
                Ok(Value::Text(join_strings(&l, sep_text.as_str())))
            },
            Value::Text(s) => {
                let comma = chars_of(", ");
                let replaced = replace_chars(&chars_of(s.as_str()), &comma, &sep);
                Ok(Value::Text(string_of(&replaced)))
            },
        };
    }
    if is_named(t, "join") {
        if is_named(var, "authors") {
            let sep = if filename_mode {
                "-"
            } else {
                ", "
            };
            return Ok(Value::Text(join_strings(&vals.author_surnames, sep)));
        }
        return Ok(Value::Text(v.to_string_val()));
    }
    if is_named(t, "lower") {
        let text = v.to_string_val();
        return Ok(Value::Text(lower_text_exec(text.as_str())));
    }
    if is_named(t, "upper") {
        let text = v.to_string_val();
        return Ok(Value::Text(upper_text_exec(text.as_str())));
    }
    let mut m = String::from_str("unsupported transform '");
    m.append(string_of(t).as_str());
    m.append("' for variable '");
    m.append(string_of(var).as_str());
    m.append("'");
    Err(m)
}

/// Whether every character of `s` is ASCII.
fn is_ascii_exec(s: &[char]) -> (r: bool)
    ensures
        r == is_ascii_text(s@),
{
    let mut i: usize = 0;
    while i < s.len()
        invariant
            i <= s@.len(),
            forall|k: int| 0 <= k < i ==> (#[trigger] s@[k] as u32) < 128,
        decreases s.len() - i,
    {
        if (s[i] as u32) >= 128 {
            return false;
        }
        i += 1;
    }
    true
}

fn upper_char(c: char) -> (r: char)
    ensures
        r == upper(c),
{
    if 'a' <= c && c <= 'z' {
        let u: u32 = (c as u32) - 32;
        assert(u <= 0x7f);
        u as u8 as char
    } else {
        c
    }
}

/// `upper_text`: ASCII upper-casing for ASCII text, else `str::to_uppercase`.
fn upper_text_exec(text: &str) -> (r: String)
    ensures
        r@ == upper_text(text@),
{
    let cs = chars_of(text);
    if is_ascii_exec(&cs) {
        let mut out: Vec<char> = Vec::new();
        let mut i: usize = 0;
        while i < cs.len()
            invariant
                i <= cs@.len(),
                out@ == upper_seq(cs@.subrange(0, i as int)),
            decreases cs.len() - i,
        {
            out.push(upper_char(cs[i]));
            i += 1;
            assert(upper_seq(cs@.subrange(0, i as int)) =~= upper_seq(cs@.subrange(0, i - 1)).push(
                upper(cs@[i - 1]),
            ));
        }
        assert(cs@.subrange(0, cs@.len() as int) =~= cs@);
        string_of(&out)
    } else {
        to_uppercase(text)
    }
}

/// `lower_text`: ASCII lower-casing for ASCII text, else `str::to_lowercase`.
fn lower_text_exec(text: &str) -> (r: String)
    ensures
        r@ == lower_text(text@),
{
    let cs = chars_of(text);
    if is_ascii_exec(&cs) {
        string_of(&to_ascii_lower(&cs))
    } else {
        to_lowercase(text)
    }
}

/// The `upper` and `lower` transforms change the letter case of the value's
/// text and nothing else: on ASCII text, `upper` turns each of `a`..`z`
/// into the matching capital and `lower` each of `A`..`Z` into the matching
/// small letter, keeping every other character and the length; other text
/// is what `str::to_uppercase` and `str::to_lowercase` give.
pub proof fn lemma_case_transforms(var: Seq<char>, s: Seq<char>, vals: NoteValuesView, filename_mode: bool)
    ensures
        single_transform(var, ValueView::Text(s), "upper"@, vals, filename_mode) matches Ok(ValueView::Text(u))
            && (is_ascii_text(s) ==> u.len() == s.len() && forall|i: int|
            0 <= i < s.len() ==> #[trigger] u[i] == if 'a' <= s[i] && s[i] <= 'z' {
                ((s[i] as u32) - 32) as char
            } else {
                s[i]
            }) && (!is_ascii_text(s) ==> u == uppercase_of(s)),
        single_transform(var, ValueView::Text(s), "lower"@, vals, filename_mode) matches Ok(ValueView::Text(l))
            && (is_ascii_text(s) ==> l.len() == s.len() && forall|i: int|
            0 <= i < s.len() ==> #[trigger] l[i] == if 'A' <= s[i] && s[i] <= 'Z' {
                ((s[i] as u32) + 32) as char
            } else {
                s[i]
            }) && (!is_ascii_text(s) ==> l == lowercase_of(s)),
{
    reveal_strlit("upper");
    reveal_strlit("lower");
    reveal_strlit("slice(");
    reveal_strlit("join(");
    reveal_strlit("join");
    reveal_strlit(")");
    assert("upper"@ =~= seq!['u', 'p', 'p', 'e', 'r']);
    assert("lower"@ =~= seq!['l', 'o', 'w', 'e', 'r']);
    assert(!starts_with("upper"@, "slice("@));
    assert(!starts_with("lower"@, "slice("@));
    assert(!starts_with("upper"@, "join("@)) by {
        assert("upper"@.subrange(0, 5) != "join("@) by {
            assert("upper"@[0] != "join("@[0]);
        }
    }
    assert(!starts_with("lower"@, "join("@)) by {
        assert("lower"@.subrange(0, 5) != "join("@) by {
            assert("lower"@[0] != "join("@[0]);
        }
    }
    assert("upper"@ != "join"@);
    assert("lower"@ != "join"@);
    assert("upper"@ != "lower"@);
}

/// A value after its format.
fn formatted_value_exec(var: &[char], v: Value, fmt: &Option<Vec<char>>, vals: &NoteValues) -> (r:
    Result<Value, String>)
    ensures
        match formatted_value(
            var@,
            v.view_of(),
            match fmt {
                Some(f) => Some(f@),
                None => None,
            },
            vals.view_of(),
        ) {
            Ok(x) => r matches Ok(y) && y.view_of() == x,
            Err(m) => r matches Err(y) && y@ == m,
        },
{
    let f = match fmt {
        None => return Ok(v),
        Some(f) => f,
    };
    let is_time = is_named(var, "date") || is_named(var, "time") || is_named(var, "datetime");
    match v {
        Value::List(l) => {
            if is_named(var, "authors") {
                let fs = string_of(f);
                let mut out: Vec<String> = Vec::new();
                let mut i: usize = 0;
                let ghost lv = texts(l@);
                while i < l.len()
                    invariant
                        i <= l@.len(),
                        lv == texts(l@),
                        fs@ == f@,
                        texts(out@) == lv.take(i as int).map_values(
                            |a: Seq<char>| formatted_author(a, f@),
                        ),
                    decreases l.len() - i,
                {
                    let a = format_single_author(l[i].as_str(), fs.as_str());
                    let ghost prev = texts(out@);
                    out.push(a);
                    assert(texts(out@) =~= prev.push(a@));
                    i += 1;
                    assert(lv.take(i as int) =~= lv.take(i - 1).push(lv[i - 1]));
                    assert(texts(out@) =~= lv.take(i as int).map_values(
                        |a: Seq<char>| formatted_author(a, f@),
                    ));
                }
                assert(lv.take(l@.len() as int) =~= lv);
                Ok(Value::List(out))
            } else {
                Ok(Value::List(l))
            }
        },
        Value::Text(s) => {
            if is_time {
                time_value_exec(vals.now, string_of(f).as_str())
            } else {
                Ok(Value::Text(s))
            }
        },
    }
}

/// The text of a placeholder with value `v`.
fn chain_text_exec(
    var: &[char],
    v: Value,
    content: Option<Vec<char>>,
    vals: &NoteValues,
    filename_mode: bool,
) -> (r: Result<String, String>)
    ensures
        match chain_text(
            var@,
            v.view_of(),
            match content {
                Some(c) => Some(c@),
                None => None,
            },
            vals.view_of(),
            filename_mode,
        ) {
            Ok(x) => r matches Ok(y) && y@ == x,
            Err(m) => r matches Err(y) && y@ == m,
        },
{
    let ghost cv = match &content {
        Some(c) => Some(c@),
        None => None,
    };
    let (fmt, ts) = content_parts_exec(content);
    let ghost tv = ts@.map_values(|w: Vec<char>| w@);
    let mut cur = match formatted_value_exec(var, v, &fmt, vals) {
        Err(m) => return Err(m),
        Ok(x) => x,
    };
    let mut i: usize = 0;
    while i < ts.len()
        invariant
            i <= ts@.len(),
            tv == ts@.map_values(|w: Vec<char>| w@),
            tv == content_parts(cv).1,
            cv == (match content {
                Some(c) => Some(c@),
                None => None,
            }),
            apply_transforms(
                var@,
                formatted_value(var@, v.view_of(), content_parts(cv).0, vals.view_of())->Ok_0,
                tv,
                i as int,
                vals.view_of(),
                filename_mode,
            ) == Ok::<ValueView, Seq<char>>(cur.view_of()),
            formatted_value(var@, v.view_of(), content_parts(cv).0, vals.view_of()) is Ok,
        decreases ts.len() - i,
    {
        assert(tv[i as int] == ts@[i as int]@);
        cur = match single_transform_exec(var, cur, &ts[i], vals, filename_mode) {
            Err(m) => {
                proof {
                    let x0 = formatted_value(var@, v.view_of(), content_parts(cv).0, vals.view_of())->Ok_0;
                    assert(apply_transforms(var@, x0, tv, i + 1, vals.view_of(), filename_mode)
                        == Err::<ValueView, Seq<char>>(m@));
                    lemma_transforms_err_sticky(
                        var@,
                        formatted_value(var@, v.view_of(), content_parts(cv).0, vals.view_of())->Ok_0,
                        tv,
                        i + 1,
                        tv.len() as int,
                        vals.view_of(),
                        filename_mode,
                    );
                    assert(chain_text(var@, v.view_of(), cv, vals.view_of(), filename_mode)
                        == Err::<Seq<char>, Seq<char>>(m@));
                }
                return Err(m);
            },
            Ok(x) => x,
        };
        i += 1;
    }
    Ok(cur.to_string_val())
}

proof fn lemma_transforms_err_sticky(
    var: Seq<char>,
    v: ValueView,
    ts: Seq<Seq<char>>,
    j: int,
    n: int,
    vals: NoteValuesView,
    filename_mode: bool,
)
    requires
        0 <= j <= n,
        apply_transforms(var, v, ts, j, vals, filename_mode) is Err,
    ensures
        apply_transforms(var, v, ts, n, vals, filename_mode) == apply_transforms(
            var,
            v,
            ts,
            j,
            vals,
            filename_mode,
        ),
    decreases n - j,
{
    if j < n {
        lemma_transforms_err_sticky(var, v, ts, j + 1, n, vals, filename_mode);
    }
}

/// The text the placeholder `f` of `t` stands for.
fn resolve_exec(t: &[char], f: Found, entry: &Entry, vals: &NoteValues, filename_mode: bool) -> (r:
    Result<String, String>)
    requires
        placeholder_at(t@, f.start as int) == Some(f.view_of()),
    ensures
        match resolve(t@, f.view_of(), *entry, vals.view_of(), filename_mode) {
            Ok(x) => r matches Ok(y) && y@ == x,
            Err(m) => r matches Err(y) && y@ == m,
        },
{
    proof {
        lemma_placeholder_at(t@, f.start as int);
    }
    let var = slice_range(t, f.name.0, f.name.1);
    let content = match f.content {
        Some(c) => Some(slice_range(t, c.0, c.1)),
        None => None,
    };
    match builtin_value_exec(vals, &var, filename_mode) {
        Some(Err(m)) => Err(m),
        Some(Ok(v)) => chain_text_exec(&var, v, content, vals, filename_mode),
        None => {
            let key = string_of(&to_ascii_lower(&var));
            match entry.get_field(key.as_str()) {
                Some(fv) => chain_text_exec(
                    &var,
                    Value::Text(fv.to_owned()),
                    content,
                    vals,
                    filename_mode,
                ),
                None => match f.default {
                    Some(d) => Ok(string_of(&slice_range(t, d.0, d.1))),
                    None => Ok(string_of(&slice_range(t, f.start, f.end))),
                },
            }
        },
    }
}

/// `t` with its placeholders replaced (see `render_from`).
pub fn render_text(t: &[char], entry: &Entry, vals: &NoteValues, filename_mode: bool) -> (r: Result<
    String,
    String,
>)
    ensures
        match render_from(t@, 0, *entry, vals.view_of(), filename_mode) {
            Ok(x) => r matches Ok(y) && y@ == x,
            Err(m) => r matches Err(y) && y@ == m,
        },
{
    let mut out: Vec<char> = Vec::new();
    let mut p: usize = 0;
    loop
        invariant
            p <= t@.len(),
            render_from(t@, 0, *entry, vals.view_of(), filename_mode) == prepend(
                out@,
                render_from(t@, p as int, *entry, vals.view_of(), filename_mode),
            ),
        decreases t@.len() - p,
    {
        proof {
            lemma_next_placeholder(t@, p as int);
        }
        match next_placeholder_exec(t, p) {
            None => {
                let tail = slice_range(t, p, t.len());
                crate::text::push_all(&mut out, &tail);
                return Ok(string_of(&out));
            },
            Some(f) => {
                let ghost s = next_placeholder(t@, p as int)->Some_0;
                proof {
                    lemma_placeholder_at(t@, s);
                }
                assert(f.start == s);
                let v = match resolve_exec(t, f, entry, vals, filename_mode) {
                    Err(m) => return Err(m),
                    Ok(v) => v,
                };
                let piece = if filename_mode {
                    sanitize_filename_segment(v.as_str())
                } else {
                    v
                };
                let ghost before = out@;
                let pre = slice_range(t, p, f.start);
                crate::text::push_all(&mut out, &pre);
                crate::text::push_all(&mut out, &chars_of(piece.as_str()));
                proof {
                    let rest = render_from(t@, f.end as int, *entry, vals.view_of(), filename_mode);
                    match rest {
                        Ok(x) => {
                            assert(before + (t@.subrange(p as int, s) + piece@ + x) =~= out@ + x);
                        },
                        Err(m) => {},
                    }
                }
                p = f.end;
            },
        }
    }
}

} // verus!
