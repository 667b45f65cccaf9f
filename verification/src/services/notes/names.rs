//! Text helpers for notes: author names, safe file names, and the editor
//! command line.
use vstd::prelude::*;

use crate::config::paths::{file_name, file_name_of};
use crate::text::{
    chars_of, find, find_exec, is_ascii_alnum, is_ascii_alnum_char, is_ws, is_ws_char,
    lemma_find_from_bounds, push_all, slice_range, string_of, trim, trim_chars,
};
use crate::infra::launcher::rfind_char;

verus! {

/// The words of `s` after its first `n` characters are read: the finished
/// words and the word in progress.
pub open spec fn words_acc(s: Seq<char>, n: int) -> (Seq<Seq<char>>, Seq<char>)
    decreases n,
{
    if n <= 0 {
        (Seq::empty(), Seq::empty())
    } else {
        let (ws, cur) = words_acc(s, n - 1);
        if is_ws(s[n - 1]) {
            if cur.len() > 0 {
                (ws.push(cur), Seq::empty())
            } else {
                (ws, cur)
            }
        } else {
            (ws, cur.push(s[n - 1]))
        }
    }
}

/// The whitespace-separated words of `s` (`str::split_whitespace`).
pub open spec fn words(s: Seq<char>) -> Seq<Seq<char>> {
    let (ws, cur) = words_acc(s, s.len() as int);
    if cur.len() > 0 {
        ws.push(cur)
    } else {
        ws
    }
}

/// The parts of `parts` joined with `sep` (`[String]::join`).
pub open spec fn join_with(parts: Seq<Seq<char>>, sep: Seq<char>) -> Seq<char>
    decreases parts.len(),
{
    if parts.len() == 0 {
        Seq::empty()
    } else if parts.len() == 1 {
        parts[0]
    } else {
        join_with(parts.drop_last(), sep) + sep + parts.last()
    }
}

/// The texts of a list of strings.
pub open spec fn texts(v: Seq<String>) -> Seq<Seq<char>> {
    v.map_values(|s: String| s@)
}

/// The whitespace-separated words of `s`.
pub fn split_words(s: &[char]) -> (r: Vec<Vec<char>>)
    ensures
        r@.map_values(|w: Vec<char>| w@) == words(s@),
{
    let mut out: Vec<Vec<char>> = Vec::new();
    let mut cur: Vec<char> = Vec::new();
    let mut i: usize = 0;
    assert(out@.map_values(|w: Vec<char>| w@) =~= Seq::<Seq<char>>::empty());
    while i < s.len()
        invariant
            i <= s@.len(),
            words_acc(s@, i as int) == (out@.map_values(|w: Vec<char>| w@), cur@),
        decreases s.len() - i,
    {
        let ghost before = out@.map_values(|w: Vec<char>| w@);
        if is_ws_char(s[i]) {
            if cur.len() > 0 {
                let mut taken: Vec<char> = Vec::new();
                std::mem::swap(&mut taken, &mut cur);
                out.push(taken);
                assert(out@.map_values(|w: Vec<char>| w@) =~= before.push(taken@));
            }
        } else {
            cur.push(s[i]);
        }
        i += 1;
    }
    if cur.len() > 0 {
        let ghost before = out@.map_values(|w: Vec<char>| w@);
        out.push(cur);
        assert(out@.map_values(|w: Vec<char>| w@) =~= before.push(cur@));
    }
    out
}

/// The parts joined with `sep`.
pub fn join_chars(parts: &[Vec<char>], sep: &[char]) -> (r: Vec<char>)
    ensures
        r@ == join_with(parts@.map_values(|w: Vec<char>| w@), sep@),
{
    let ghost pv = parts@.map_values(|w: Vec<char>| w@);
    let mut out: Vec<char> = Vec::new();
    let mut i: usize = 0;
    while i < parts.len()
        invariant
            i <= parts@.len(),
            pv == parts@.map_values(|w: Vec<char>| w@),
            out@ == join_with(pv.take(i as int), sep@),
        decreases parts.len() - i,
    {
        assert(pv.take(i + 1).drop_last() =~= pv.take(i as int));
        assert(pv.take(i + 1).last() == parts@[i as int]@);
        if i > 0 {
            push_all(&mut out, sep);
        } else {
            assert(pv.take(1) =~= seq![parts@[0]@]);
        }
        push_all(&mut out, &parts[i]);
        i += 1;
    }
    assert(pv.take(parts@.len() as int) =~= pv);
    out
}

/// The strings joined with `sep`.
pub fn join_strings(parts: &[String], sep: &str) -> (r: String)
    ensures
        r@ == join_with(texts(parts@), sep@),
{
    let mut out = String::new();
    let mut i: usize = 0;
    let ghost pv = texts(parts@);
    while i < parts.len()
        invariant
            i <= parts@.len(),
            pv == texts(parts@),
            out@ == join_with(pv.take(i as int), sep@),
        decreases parts.len() - i,
    {
        assert(pv.take(i + 1).drop_last() =~= pv.take(i as int));
        assert(pv.take(i + 1).last() == parts@[i as int]@);
        if i > 0 {
            out.append(sep);
        } else {
            assert(pv.take(1) =~= seq![parts@[0]@]);
        }
        out.append(parts[i].as_str());
        i += 1;
    }
    assert(pv.take(parts@.len() as int) =~= pv);
    out
}

/// An author's given names and surname: `Last, First` is split at the
/// comma; otherwise the last word is the surname; a single word is only a
/// surname.
pub open spec fn author_parts(author: Seq<char>) -> (Seq<char>, Seq<char>) {
    let a = trim(author);
    if a.len() == 0 {
        (Seq::empty(), Seq::empty())
    } else {
        match find(a, seq![',']) {
            Some(i) => (trim(a.subrange(i + 1, a.len() as int)), trim(a.subrange(0, i))),
            None => {
                let w = words(a);
                if w.len() >= 2 {
                    (join_with(w.drop_last(), seq![' ']), w.last())
                } else {
                    (Seq::empty(), a)
                }
            },
        }
    }
}

/// Splits an author into given names and surname.
pub fn parse_author_name(author: &str) -> (r: (String, String))
    ensures
        r.0@ == author_parts(author@).0,
        r.1@ == author_parts(author@).1,
{
    let a = trim_chars(&chars_of(author));
    if a.len() == 0 {
        return (String::new(), String::new());
    }
    let comma: Vec<char> = vec![','];
    assert(comma@ =~= seq![',']);
    proof {
        lemma_find_from_bounds(a@, comma@, 0);
    }
    match find_exec(&a, &comma, 0) {
        Some(i) => {
            let last = trim_chars(&slice_range(&a, 0, i));
            let first = trim_chars(&slice_range(&a, i + 1, a.len()));
            (string_of(&first), string_of(&last))
        },
        None => {
            let w = split_words(&a);
            if w.len() >= 2 {
                let space: Vec<char> = vec![' '];
                assert(space@ =~= seq![' ']);
                let head = slice_range_vecs(&w, w.len() - 1);
                assert(head@.map_values(|x: Vec<char>| x@) =~= w@.map_values(|x: Vec<char>| x@).drop_last());
                let first = join_chars(&head, &space);
                (string_of(&first), string_of(&w[w.len() - 1]))
            } else {
                (String::new(), string_of(&a))
            }
        },
    }
}

/// A copy of the first `n` vectors of `v`.
fn slice_range_vecs(v: &Vec<Vec<char>>, n: usize) -> (r: Vec<Vec<char>>)
    requires
        n <= v@.len(),
    ensures
        r@.len() == n,
        forall|i: int| 0 <= i < n ==> (#[trigger] r@[i])@ == v@[i]@,
{
    let mut out: Vec<Vec<char>> = Vec::new();
    let mut i: usize = 0;
    while i < n
        invariant
            i <= n <= v@.len(),
            out@.len() == i,
            forall|k: int| 0 <= k < i ==> (#[trigger] out@[k])@ == v@[k]@,
        decreases n - i,
    {
        out.push(slice_range(&v[i], 0, v[i].len()));
        assert(v@[i as int]@.subrange(0, v@[i as int]@.len() as int) =~= v@[i as int]@);
        i += 1;
    }
    out
}

/// An author's surname: the text before a comma, else the last word.
pub open spec fn surname_of(author: Seq<char>) -> Seq<char> {
    let a = trim(author);
    if a.len() == 0 {
        Seq::empty()
    } else {
        match find(a, seq![',']) {
            Some(i) => trim(a.subrange(0, i)),
            None => if words(a).len() > 0 {
                trim(words(a).last())
            } else {
                trim(a)
            },
        }
    }
}

/// An author's surname.
pub fn extract_surname(author: &str) -> (r: String)
    ensures
        r@ == surname_of(author@),
{
    let a = trim_chars(&chars_of(author));
    if a.len() == 0 {
        return String::new();
    }
    let comma: Vec<char> = vec![','];
    assert(comma@ =~= seq![',']);
    match find_exec(&a, &comma, 0) {
        Some(i) => {
            proof {
                lemma_find_from_bounds(a@, comma@, 0);
            }
            string_of(&trim_chars(&slice_range(&a, 0, i)))
        },
        None => {
            let w = split_words(&a);
            if w.len() > 0 {
                assert(w@.map_values(|x: Vec<char>| x@).last() == w@[w@.len() - 1]@);
                string_of(&trim_chars(&w[w.len() - 1]))
            } else {
                string_of(&trim_chars(&a))
            }
        },
    }
}

/// An author written `Last, First`: unchanged when it has a comma or is a
/// single word, otherwise its last word, a comma and the other words.
pub open spec fn normalized_author(author: Seq<char>) -> Seq<char> {
    let a = trim(author);
    if a.len() == 0 {
        Seq::empty()
    } else if find(a, seq![',']) is Some {
        a
    } else {
        let w = words(a);
        if w.len() >= 2 {
            w.last() + ", "@ + join_with(w.drop_last(), seq![' '])
        } else {
            a
        }
    }
}

/// Writes an author as `Last, First`.
pub fn normalize_author_name(author: &str) -> (r: String)
    ensures
        r@ == normalized_author(author@),
{
    let a = trim_chars(&chars_of(author));
    if a.len() == 0 {
        return String::new();
    }
    let comma: Vec<char> = vec![','];
    assert(comma@ =~= seq![',']);
    if find_exec(&a, &comma, 0).is_some() {
        return string_of(&a);
    }
    let w = split_words(&a);
    if w.len() >= 2 {
        let space: Vec<char> = vec![' '];
        assert(space@ =~= seq![' ']);
        let head = slice_range_vecs(&w, w.len() - 1);
        assert(head@.map_values(|x: Vec<char>| x@) =~= w@.map_values(|x: Vec<char>| x@).drop_last());
        let first = join_chars(&head, &space);
        let mut out = string_of(&w[w.len() - 1]);
        out.append(", ");
        out.append(string_of(&first).as_str());
        out
    } else {
        string_of(&a)
    }
}

/// `s` with every occurrence of the non-empty `pat`, from left to right
/// and without overlap, replaced by `rep` (`str::replace`).
pub open spec fn replace_all(s: Seq<char>, pat: Seq<char>, rep: Seq<char>) -> Seq<char>
    decreases s.len(),
{
    if pat.len() == 0 {
        s
    } else {
        match find(s, pat) {
            None => s,
            Some(i) => if 0 <= i && i + pat.len() <= s.len() {
                s.subrange(0, i) + rep + replace_all(s.subrange(i + pat.len(), s.len() as int), pat, rep)
            } else {
                s
            },
        }
    }
}

/// `str::replace` on character vectors, for a non-empty `pat`.
pub fn replace_chars(s: &[char], pat: &[char], rep: &[char]) -> (r: Vec<char>)
    requires
        pat.len() > 0,
    ensures
        r@ == replace_all(s@, pat@, rep@),
{
    let mut out: Vec<char> = Vec::new();
    let mut start: usize = 0;
    assert(s@.subrange(0, s@.len() as int) =~= s@);
    loop
        invariant
            start <= s.len(),
            pat.len() > 0,
            out@ + replace_all(s@.subrange(start as int, s@.len() as int), pat@, rep@)
                == replace_all(s@, pat@, rep@),
        decreases s.len() - start,
    {
        let ghost rest = s@.subrange(start as int, s@.len() as int);
        proof {
            crate::text::lemma_find_shift(s@, pat@, start as int, start as int);
            lemma_find_from_bounds(s@, pat@, start as int);
        }
        match find_exec(s, pat, start) {
            None => {
                assert(find(rest, pat@) is None);
                let tail = slice_range(s, start, s.len());
                push_all(&mut out, &tail);
                return out;
            },
            Some(j) => {
                assert(find(rest, pat@) == Some(j - start));
                let piece = slice_range(s, start, j);
                assert(rest.subrange(0, j - start) =~= piece@);
                assert(rest.subrange(j - start + pat.len(), rest.len() as int) =~= s@.subrange(
                    j + pat.len(),
                    s@.len() as int,
                ));
                let ghost before = out@;
                push_all(&mut out, &piece);
                push_all(&mut out, rep);
                assert(out@ =~= before + piece@ + rep@);
                start = j + pat.len();
            },
        }
    }
}

/// An author formatted by `fmt`: `%F` becomes the given names, then `%L`
/// the surname.
pub open spec fn formatted_author(author: Seq<char>, fmt: Seq<char>) -> Seq<char> {
    let (first, last) = author_parts(author);
    replace_all(replace_all(fmt, seq!['%', 'F'], first), seq!['%', 'L'], last)
}

/// Formats one author by `fmt`.
pub fn format_single_author(author: &str, fmt: &str) -> (r: String)
    ensures
        r@ == formatted_author(author@, fmt@),
{
    let (first, last) = parse_author_name(author);
    let pf: Vec<char> = vec!['%', 'F'];
    let pl: Vec<char> = vec!['%', 'L'];
    assert(pf@ =~= seq!['%', 'F']);
    assert(pl@ =~= seq!['%', 'L']);
    let once = replace_chars(&chars_of(fmt), &pf, &chars_of(first.as_str()));
    string_of(&replace_chars(&once, &pl, &chars_of(last.as_str())))
}

/// A character kept in file names.
pub open spec fn is_name_safe(c: char) -> bool {
    is_ascii_alnum(c) || c == '-' || c == '_' || c == '.' || c == '@'
}

/// The first `n` characters of `s` with unsafe runs turned into one `-`,
/// and whether the output so far ends in such a `-`.
pub open spec fn dash_runs(s: Seq<char>, n: int) -> (Seq<char>, bool)
    decreases n,
{
    if n <= 0 {
        (Seq::empty(), false)
    } else {
        let (o, dash) = dash_runs(s, n - 1);
        if is_name_safe(s[n - 1]) {
            (o.push(s[n - 1]), false)
        } else if !dash {
            (o.push('-'), true)
        } else {
            (o, dash)
        }
    }
}

/// A character trimmed from the ends of a file name.
pub open spec fn is_edge_char(c: char) -> bool {
    c == '-' || c == '.' || c == ' '
}

/// `s` without leading and trailing `-`, `.` and spaces.
pub open spec fn trim_edges(s: Seq<char>) -> Seq<char>
    decreases s.len(),
{
    if s.len() > 0 && is_edge_char(s[0]) {
        trim_edges(s.drop_first())
    } else if s.len() > 0 && is_edge_char(s.last()) {
        trim_edges(s.drop_last())
    } else {
        s
    }
}

/// `value` made safe as a file name: trimmed, every run of other
/// characters than ASCII letters, digits, `-`, `_`, `.` and `@` turned into
/// one `-`, and `-`, `.` and spaces trimmed from the ends; `note` when
/// nothing is left.
pub open spec fn sanitized(value: Seq<char>) -> Seq<char> {
    let t = trim(value);
    let o = trim_edges(dash_runs(t, t.len() as int).0);
    if o.len() == 0 || o == seq!['.'] || o == seq!['.', '.'] {
        "note"@
    } else {
        o
    }
}

/// Makes `value` safe as a file name.
pub fn sanitize_filename_segment(value: &str) -> (r: String)
    ensures
        r@ == sanitized(value@),
{
    let t = trim_chars(&chars_of(value));
    let mut out: Vec<char> = Vec::new();
    let mut dash = false;
    let mut i: usize = 0;
    while i < t.len()
        invariant
            i <= t@.len(),
            dash_runs(t@, i as int) == (out@, dash),
        decreases t.len() - i,
    {
        let c = t[i];
        if is_ascii_alnum_char(c) || c == '-' || c == '_' || c == '.' || c == '@' {
            out.push(c);
            dash = false;
        } else if !dash {
            out.push('-');
            dash = true;
        }
        i += 1;
    }
    let mut a: usize = 0;
    let mut b: usize = out.len();
    assert(out@.subrange(0, out@.len() as int) =~= out@);
    while a < b && (out[a] == '-' || out[a] == '.' || out[a] == ' ')
        invariant
            a <= b <= out@.len(),
            b == out@.len(),
            trim_edges(out@) == trim_edges(out@.subrange(a as int, b as int)),
        decreases b - a,
    {
        assert(out@.subrange(a as int, b as int).drop_first() =~= out@.subrange(a + 1, b as int));
        a += 1;
    }
    while a < b && (out[b - 1] == '-' || out[b - 1] == '.' || out[b - 1] == ' ')
        invariant
            a <= b <= out@.len(),
            a < b ==> !is_edge_char(out@[a as int]),
            trim_edges(out@) == trim_edges(out@.subrange(a as int, b as int)),
        decreases b - a,
    {
        assert(out@.subrange(a as int, b as int)[0] == out@[a as int]);
        assert(out@.subrange(a as int, b as int).drop_last() =~= out@.subrange(a as int, b - 1));
        b -= 1;
    }
    proof {
        if a < b {
            assert(out@.subrange(a as int, b as int)[0] == out@[a as int]);
            assert(out@.subrange(a as int, b as int).last() == out@[b - 1]);
        }
    }
    let o = slice_range(&out, a, b);
    if o.len() == 0 || (o.len() == 1 && o[0] == '.') || (o.len() == 2 && o[0] == '.' && o[1] == '.') {
        proof {
            if o@.len() == 1 {
                assert(o@ =~= seq!['.']);
            }
            if o@.len() == 2 {
                assert(o@ =~= seq!['.', '.']);
            }
        }
        String::from_str("note")
    } else {
        assert(o@ != seq!['.']) by {
            if o@ == seq!['.'] {
                assert(o@.len() == 1 && o@[0] == '.');
            }
        }
        assert(o@ != seq!['.', '.']) by {
            if o@ == seq!['.', '.'] {
                assert(o@.len() == 2 && o@[0] == '.' && o@[1] == '.');
            }
        }
        string_of(&o)
    }
}

/// A file name split into stem and extension (`Path::file_stem`,
/// `Path::extension`): at the last dot, unless that dot starts the name.
pub open spec fn stem_and_extension(name: Seq<char>) -> (Seq<char>, Option<Seq<char>>) {
    match rfind_char(name, '.') {
        Some(i) => if i == 0 {
            (name, None)
        } else {
            (name.subrange(0, i), Some(name.subrange(i + 1, name.len() as int)))
        },
        None => (name, None),
    }
}

/// A rendered note file name made safe: its stem and its extension each
/// sanitized; `note` when it has no file name.
pub open spec fn normalized_filename(file: Seq<char>) -> Seq<char> {
    match file_name_of(file) {
        None => sanitized("note"@),
        Some(n) => {
            let (st, ex) = stem_and_extension(n);
            match ex {
                Some(e) if e.len() > 0 => sanitized(st) + seq!['.'] + sanitized(e),
                _ => sanitized(st),
            }
        },
    }
}

/// Whether `n` is a safe file name: not empty, made of ASCII letters,
/// digits, `-`, `_`, `.` and `@` only (so without a path separator), and
/// starting with neither `-` nor `.` (so neither hidden, nor an option, nor
/// `.` or `..`).
pub open spec fn safe_file_name(n: Seq<char>) -> bool {
    &&& n.len() > 0
    &&& forall|k: int| 0 <= k < n.len() ==> is_name_safe(#[trigger] n[k])
    &&& n[0] != '-' && n[0] != '.'
}

proof fn lemma_dash_runs_safe(s: Seq<char>, n: int)
    ensures
        forall|k: int| 0 <= k < dash_runs(s, n).0.len() ==> is_name_safe(#[trigger] dash_runs(s, n).0[k]),
    decreases n,
{
    if n > 0 {
        lemma_dash_runs_safe(s, n - 1);
        let prev = dash_runs(s, n - 1).0;
        let cur = dash_runs(s, n).0;
        assert forall|k: int| 0 <= k < cur.len() implies is_name_safe(#[trigger] cur[k]) by {
            if k < prev.len() {
                assert(cur[k] == prev[k]);
            }
        }
    }
}

proof fn lemma_trim_edges_safe(s: Seq<char>)
    requires
        forall|k: int| 0 <= k < s.len() ==> is_name_safe(#[trigger] s[k]),
    ensures
        forall|k: int| 0 <= k < trim_edges(s).len() ==> is_name_safe(#[trigger] trim_edges(s)[k]),
        trim_edges(s).len() > 0 ==> !is_edge_char(trim_edges(s)[0]),
    decreases s.len(),
{
    if s.len() > 0 && is_edge_char(s[0]) {
        let d = s.drop_first();
        assert forall|k: int| 0 <= k < d.len() implies is_name_safe(#[trigger] d[k]) by {
            assert(d[k] == s[k + 1]);
        }
        lemma_trim_edges_safe(d);
    } else if s.len() > 0 && is_edge_char(s.last()) {
        let d = s.drop_last();
        assert forall|k: int| 0 <= k < d.len() implies is_name_safe(#[trigger] d[k]) by {
            assert(d[k] == s[k]);
        }
        lemma_trim_edges_safe(d);
    }
}

/// A sanitized value is a safe file name.
pub proof fn lemma_sanitized_safe(value: Seq<char>)
    ensures
        safe_file_name(sanitized(value)),
{
    let t = trim(value);
    let d = dash_runs(t, t.len() as int).0;
    lemma_dash_runs_safe(t, t.len() as int);
    lemma_trim_edges_safe(d);
    reveal_strlit("note");
    let note = "note"@;
    assert(note =~= seq!['n', 'o', 't', 'e']);
}

/// A normalized note file name is a safe file name.
pub proof fn lemma_normalized_filename_safe(file: Seq<char>)
    ensures
        safe_file_name(normalized_filename(file)),
{
    reveal_strlit("note");
    lemma_sanitized_safe("note"@);
    match file_name_of(file) {
        None => {},
        Some(n) => {
            let (st, ex) = stem_and_extension(n);
            lemma_sanitized_safe(st);
            match ex {
                Some(e) => {
                    if e.len() > 0 {
                        lemma_sanitized_safe(e);
                        let a = sanitized(st);
                        let b = sanitized(e);
                        let r = a + seq!['.'] + b;
                        assert forall|k: int| 0 <= k < r.len() implies is_name_safe(#[trigger] r[k]) by {
                            if k < a.len() {
                                assert(r[k] == a[k]);
                            } else if k == a.len() {
                                assert(r[k] == '.');
                            } else {
                                assert(r[k] == b[k - a.len() - 1]);
                            }
                        }
                        assert(r[0] == a[0]);
                    }
                },
                None => {},
            }
        },
    }
}

/// Makes a rendered note file name safe.
pub fn normalize_rendered_filename(file: &str) -> (r: String)
    ensures
        r@ == normalized_filename(file@),
{
    match file_name(file) {
        None => sanitize_filename_segment("note"),
        Some(n) => {
            let c = chars_of(n.as_str());
            match crate::infra::launcher::rfind_char_exec(&c, '.') {
                Some(i) => {
                    assert(i < c@.len());
                    if i == 0 {
                        sanitize_filename_segment(n.as_str())
                    } else {
                        let stem = string_of(&slice_range(&c, 0, i));
                        let len = c.len();
                        assert(i < len);
                        let ext = slice_range(&c, i + 1, len);
                        let mut out = sanitize_filename_segment(stem.as_str());
                        if ext.len() > 0 {
                            out.push('.');
                            out.append(sanitize_filename_segment(string_of(&ext).as_str()).as_str());
                        }
                        out
                    }
                },
                None => sanitize_filename_segment(n.as_str()),
            }
        },
    }
}

/// The first `max` characters of `value`.
pub fn truncate_chars(value: &str, max: usize) -> (r: String)
    ensures
        r@ == (if value@.len() <= max {
            value@
        } else {
            value@.take(max as int)
        }),
{
    let c = chars_of(value);
    if c.len() <= max {
        value.to_owned()
    } else {
        assert(c@.subrange(0, max as int) =~= c@.take(max as int));
        string_of(&slice_range(&c, 0, max))
    }
}

/// The state of splitting an editor command line: the parts so far, the
/// part in progress and the open quote.
pub open spec fn cmdline_acc(s: Seq<char>, n: int) -> (Seq<Seq<char>>, Seq<char>, Option<char>)
    decreases n,
{
    if n <= 0 {
        (Seq::empty(), Seq::empty(), None)
    } else {
        let (parts, cur, quote) = cmdline_acc(s, n - 1);
        let ch = s[n - 1];
        match quote {
            Some(q) => if ch == q {
                (parts, cur, None)
            } else {
                (parts, cur.push(ch), quote)
            },
            None => if ch == '"' || ch == '\'' {
                (parts, cur, Some(ch))
            } else if is_ws(ch) {
                if cur.len() > 0 {
                    (parts.push(cur), Seq::empty(), None)
                } else {
                    (parts, cur, None)
                }
            } else {
                (parts, cur.push(ch), None)
            },
        }
    }
}

/// The parts of an editor command line: split at whitespace outside
/// quotes, quotes removed (an unclosed quote runs to the end).
pub open spec fn cmdline_parts(s: Seq<char>) -> Seq<Seq<char>> {
    let (parts, cur, _) = cmdline_acc(s, s.len() as int);
    if cur.len() > 0 {
        parts.push(cur)
    } else {
        parts
    }
}

/// Splits an editor command line into its parts.
pub fn split_command_line(command: &str) -> (r: Vec<String>)
    ensures
        texts(r@) == cmdline_parts(command@),
{
    let s = chars_of(command);
    let mut parts: Vec<String> = Vec::new();
    let mut cur: Vec<char> = Vec::new();
    let mut quote: Option<char> = None;
    let mut i: usize = 0;
    assert(texts(parts@) =~= Seq::<Seq<char>>::empty());
    while i < s.len()
        invariant
            i <= s@.len(),
            s@ == command@,
            cmdline_acc(s@, i as int) == (texts(parts@), cur@, quote),
        decreases s.len() - i,
    {
        let ch = s[i];
        let ghost before = texts(parts@);
        match quote {
            Some(q) => {
                if ch == q {
                    quote = None;
                } else {
                    cur.push(ch);
                }
            },
            None => {
                if ch == '"' || ch == '\'' {
                    quote = Some(ch);
                } else if is_ws_char(ch) {
                    if cur.len() > 0 {
                        parts.push(string_of(&cur));
                        assert(texts(parts@) =~= before.push(cur@));
                        cur = Vec::new();
                    }
                } else {
                    cur.push(ch);
                }
            },
        }
        i += 1;
    }
    if cur.len() > 0 {
        let ghost before = texts(parts@);
        parts.push(string_of(&cur));
        assert(texts(parts@) =~= before.push(cur@));
    }
    parts
}

/// The command that opens a file with the desktop's default application.
pub fn default_open_command() -> (r: Vec<String>)
    ensures
        texts(r@) == seq!["xdg-open"@],
{
    let r = vec![String::from_str("xdg-open")];
    assert(texts(r@) =~= seq!["xdg-open"@]);
    r
}

} // verus!
