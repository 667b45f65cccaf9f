//! Re-rendering an entry in the layout of the block it replaces.
use vstd::prelude::*;

use crate::domain::Entry;
use crate::domain::fields::{key_index, pairs_view};
use crate::domain::format::{name_order, sorted_fields};
use crate::sorting::stable_sort;
use crate::text::{
    chars_of, ends_with, ends_with_exec, find, find_exec, is_ascii_alnum, is_ascii_alnum_char,
    is_ascii_alpha, is_ascii_alpha_char, is_ascii_ws, is_ascii_ws_char, lemma_find_from_bounds,
    lines, lines_exec, lower_seq, ltrim, push_str_chars, skip_ws_from, slice_range, string_of,
    to_ascii_lower,
};

verus! {

/// The layout of an entry block: its type, the whitespace before its
/// opening delimiter, the indentation of its fields and of its closing
/// delimiter, and its delimiters.
pub struct RenderStyle {
    pub entry_type: String,
    pub space_before_delimiter: String,
    pub field_indent: String,
    pub closing_indent: String,
    pub open_delimiter: char,
    pub close_delimiter: char,
}

/// The abstract form of a layout.
pub struct StyleView {
    pub entry_type: Seq<char>,
    pub space: Seq<char>,
    pub field_indent: Seq<char>,
    pub closing_indent: Seq<char>,
    pub open: char,
    pub close: char,
}

impl RenderStyle {
    pub open spec fn view_of(&self) -> StyleView {
        StyleView {
            entry_type: self.entry_type@,
            space: self.space_before_delimiter@,
            field_indent: self.field_indent@,
            closing_indent: self.closing_indent@,
            open: self.open_delimiter,
            close: self.close_delimiter,
        }
    }
}

/// Reads the header from `i` on: letters go to the type, ASCII whitespace
/// to the spacing, until an opening `{` or `(` (or anything else, which
/// leaves `{`).
pub open spec fn head_scan(s: Seq<char>, i: int, ty: Seq<char>, sp: Seq<char>) -> (
    Seq<char>,
    Seq<char>,
    char,
)
    decreases s.len() - i,
{
    if i < 0 || i >= s.len() {
        (ty, sp, '{')
    } else if is_ascii_alpha(s[i]) {
        head_scan(s, i + 1, ty.push(s[i]), sp)
    } else if is_ascii_ws(s[i]) {
        head_scan(s, i + 1, ty, sp.push(s[i]))
    } else if s[i] == '{' || s[i] == '(' {
        (ty, sp, s[i])
    } else {
        (ty, sp, '{')
    }
}

/// Where the header starts: after the first `@`, or at the end.
pub open spec fn head_start(b: Seq<char>) -> int {
    match find(b, seq!['@']) {
        Some(at) => at + 1,
        None => b.len() as int,
    }
}

/// The leading whitespace of `line`.
pub open spec fn indent_of(line: Seq<char>) -> Seq<char> {
    line.subrange(0, line.len() - ltrim(line).len())
}

/// The indentation of the first line at or after `j` (the first line is
/// never looked at) that is not blank and does not start with `close`.
pub open spec fn first_field_indent(ls: Seq<Seq<char>>, close: char, j: int) -> Option<Seq<char>>
    decreases ls.len() - j,
{
    if j < 1 || j >= ls.len() {
        None
    } else if ltrim(ls[j]).len() == 0 || ltrim(ls[j])[0] == close {
        first_field_indent(ls, close, j + 1)
    } else {
        Some(indent_of(ls[j]))
    }
}

/// The text before `close` on the last line of `ls`, if it has one.
pub open spec fn closing_indent_of(ls: Seq<Seq<char>>, close: char) -> Seq<char> {
    if ls.len() == 0 {
        Seq::empty()
    } else {
        match find(ls.last(), seq![close]) {
            Some(i) => ls.last().subrange(0, i),
            None => Seq::empty(),
        }
    }
}

/// The layout of the block `b`; an entry type defaults to `article` and a
/// field indentation to two spaces.
pub open spec fn style_of(b: Seq<char>) -> StyleView {
    let (ty, sp, open) = head_scan(b, head_start(b), Seq::empty(), Seq::empty());
    let close = if open == '(' {
        ')'
    } else {
        '}'
    };
    let ls = lines(b);
    StyleView {
        entry_type: if ty.len() == 0 {
            "article"@
        } else {
            ty
        },
        space: sp,
        field_indent: match first_field_indent(ls, close, 1) {
            Some(ind) => ind,
            None => "  "@,
        },
        closing_indent: closing_indent_of(ls, close),
        open,
        close,
    }
}

/// The layout of the block `block`.
pub fn render_style(block: &[char]) -> (r: RenderStyle)
    ensures
        r.view_of() == style_of(block@),
{
    let at_pat: Vec<char> = vec!['@'];
    assert(at_pat@ =~= seq!['@']);
    proof {
        lemma_find_from_bounds(block@, at_pat@, 0);
    }
    let mut i = match find_exec(block, &at_pat, 0) {
        Some(at) => {
            assert(crate::text::occurs_at(block@, at_pat@, at as int));
            assert(at < block.len());
            at + 1
        },
        None => block.len(),
    };
    let mut ty: Vec<char> = Vec::new();
    let mut sp: Vec<char> = Vec::new();
    let mut open = '{';
    let ghost head = head_scan(block@, head_start(block@), Seq::empty(), Seq::empty());
    while i < block.len()
        invariant_except_break
            i <= block@.len(),
            head == head_scan(block@, i as int, ty@, sp@),
            open == '{',
        ensures
            head == (ty@, sp@, open),
        decreases block.len() - i,
    {
        let c = block[i];
        if is_ascii_alpha_char(c) {
            ty.push(c);
        } else if is_ascii_ws_char(c) {
            sp.push(c);
        } else {
            if c == '{' || c == '(' {
                open = c;
            }
            break;
        }
        i += 1;
    }
    assert(head == (ty@, sp@, open));
    let close = if open == '(' {
        ')'
    } else {
        '}'
    };
    let ls = lines_exec(block);
    let ghost lv = lines(block@);
    let mut indent: Option<Vec<char>> = None;
    let mut j: usize = 1;
    while j < ls.len()
        invariant_except_break
            1 <= j,
            ls@.len() == lv.len(),
            forall|k: int| 0 <= k < ls@.len() ==> #[trigger] ls@[k]@ == lv[k],
            indent is None,
            first_field_indent(lv, close, 1) == first_field_indent(lv, close, j as int),
        ensures
            match indent {
                Some(v) => first_field_indent(lv, close, 1) == Some(v@),
                None => first_field_indent(lv, close, 1) is None,
            },
        decreases ls.len() - j,
    {
        let line = &ls[j];
        let t = skip_ws_from(line, 0);
        assert(line@.subrange(0, line@.len() as int) =~= line@);
        if t < line.len() && line[t] != close {
            assert(ltrim(lv[j as int])[0] == line@[t as int]);
            assert(indent_of(lv[j as int]) =~= line@.subrange(0, t as int));
            indent = Some(slice_range(line, 0, t));
            break;
        }
        proof {
            if t < line@.len() {
                assert(ltrim(lv[j as int])[0] == line@[t as int]);
            }
        }
        j += 1;
    }
    let field_indent = match indent {
        Some(v) => string_of(&v),
        None => String::from_str("  "),
    };
    let mut closing: Vec<char> = Vec::new();
    if ls.len() > 0 {
        let last = &ls[ls.len() - 1];
        let pat: Vec<char> = vec![close];
        assert(pat@ =~= seq![close]);
        if let Some(ix) = find_exec(last, &pat, 0) {
            proof {
                lemma_find_from_bounds(last@, pat@, 0);
            }
            closing = slice_range(last, 0, ix);
        }
    }
    assert(closing@ == closing_indent_of(lv, close));
    let entry_type = if ty.len() == 0 {
        String::from_str("article")
    } else {
        string_of(&ty)
    };
    RenderStyle {
        entry_type,
        space_before_delimiter: string_of(&sp),
        field_indent,
        closing_indent: string_of(&closing),
        open_delimiter: open,
        close_delimiter: close,
    }
}

/// A character of a field name in a block.
pub open spec fn is_key_char(c: char) -> bool {
    is_ascii_alnum(c) || c == '_' || c == '-'
}

/// The end of the run of field-name characters of `t` from `i`.
pub open spec fn key_run(t: Seq<char>, i: int) -> int
    decreases t.len() - i,
{
    if 0 <= i < t.len() && is_key_char(t[i]) {
        key_run(t, i + 1)
    } else {
        i
    }
}

/// The lower-cased field name that the line `line` assigns (`name =`), if
/// any.
pub open spec fn line_key(line: Seq<char>) -> Option<Seq<char>> {
    let t = ltrim(line);
    if t.len() == 0 || t[0] == '}' || t[0] == ')' {
        None
    } else {
        let e = key_run(t, 0);
        if e == 0 {
            None
        } else {
            let rest = ltrim(t.subrange(e, t.len() as int));
            if rest.len() > 0 && rest[0] == '=' {
                Some(lower_seq(t.subrange(0, e)))
            } else {
                None
            }
        }
    }
}

/// The distinct field names assigned on lines `1..n` of `ls`, in order.
pub open spec fn keys_in_lines(ls: Seq<Seq<char>>, n: int) -> Seq<Seq<char>>
    decreases n,
{
    if n <= 1 {
        Seq::empty()
    } else {
        let acc = keys_in_lines(ls, n - 1);
        match line_key(ls[n - 1]) {
            Some(k) => if acc.contains(k) {
                acc
            } else {
                acc.push(k)
            },
            None => acc,
        }
    }
}

/// The field names of the block `b`, in the order they first appear after
/// its first line.
pub open spec fn block_keys(b: Seq<char>) -> Seq<Seq<char>> {
    keys_in_lines(lines(b), lines(b).len() as int)
}

/// The field name the line assigns, if any.
fn line_key_exec(line: &[char]) -> (r: Option<Vec<char>>)
    ensures
        match line_key(line@) {
            Some(k) => r matches Some(v) && v@ == k,
            None => r is None,
        },
{
    let s = skip_ws_from(line, 0);
    assert(line@.subrange(0, line@.len() as int) =~= line@);
    let ghost t = ltrim(line@);
    assert(t =~= line@.subrange(s as int, line@.len() as int));
    if s >= line.len() || line[s] == '}' || line[s] == ')' {
        return None;
    }
    let mut e = s;
    while e < line.len() && (is_ascii_alnum_char(line[e]) || line[e] == '_' || line[e] == '-')
        invariant
            s <= e <= line@.len(),
            t == line@.subrange(s as int, line@.len() as int),
            key_run(t, 0) == key_run(t, e - s),
        decreases line.len() - e,
    {
        assert(t[e - s] == line@[e as int]);
        e += 1;
    }
    proof {
        if e < line@.len() {
            assert(t[e - s] == line@[e as int]);
        }
    }
    if e == s {
        return None;
    }
    let r = skip_ws_from(line, e);
    assert(t.subrange(e - s, t.len() as int) =~= line@.subrange(e as int, line@.len() as int));
    if r < line.len() && line[r] == '=' {
        assert(ltrim(t.subrange(e - s, t.len() as int))[0] == line@[r as int]);
        assert(t.subrange(0, e - s) =~= line@.subrange(s as int, e as int));
        Some(to_ascii_lower(&slice_range(line, s, e)))
    } else {
        proof {
            if r < line@.len() {
                assert(ltrim(t.subrange(e - s, t.len() as int))[0] == line@[r as int]);
            }
        }
        None
    }
}

/// The character sequences held by `v`.
pub open spec fn vecs_view(v: Seq<Vec<char>>) -> Seq<Seq<char>> {
    v.map_values(|x: Vec<char>| x@)
}

/// Whether `v` holds a character sequence equal to `k`.
fn contains_chars(v: &Vec<Vec<char>>, k: &[char]) -> (r: bool)
    ensures
        r == vecs_view(v@).contains(k@),
{
    let mut i: usize = 0;
    while i < v.len()
        invariant
            i <= v@.len(),
            forall|j: int| 0 <= j < i ==> (#[trigger] v@[j])@ != k@,
        decreases v.len() - i,
    {
        if crate::text::chars_eq(&v[i], k) {
            assert(vecs_view(v@)[i as int] == k@);
            return true;
        }
        i += 1;
    }
    assert(!vecs_view(v@).contains(k@)) by {
        if vecs_view(v@).contains(k@) {
            let j = choose|j: int|
                0 <= j < v@.len() && #[trigger] vecs_view(v@)[j] == k@;
            assert(v@[j]@ == k@);
        }
    }
    false
}

/// The field names of `block`, in order of first appearance.
pub fn field_keys_in_block(block: &[char]) -> (r: Vec<Vec<char>>)
    ensures
        vecs_view(r@) == block_keys(block@),
{
    let ls = lines_exec(block);
    let ghost lv = lines(block@);
    let mut keys: Vec<Vec<char>> = Vec::new();
    let mut i: usize = 1;
    assert(vecs_view(keys@) =~= keys_in_lines(lv, 1));
    while i < ls.len()
        invariant
            1 <= i,
            i <= ls@.len() || i == 1,
            ls@.len() == lv.len(),
            forall|k: int| 0 <= k < ls@.len() ==> #[trigger] ls@[k]@ == lv[k],
            vecs_view(keys@) == keys_in_lines(lv, i as int),
        decreases ls.len() - i,
    {
        match line_key_exec(&ls[i]) {
            Some(k) => {
                if !contains_chars(&keys, &k) {
                    keys.push(k);
                }
            },
            None => {},
        }
        i += 1;
        assert(vecs_view(keys@) =~= keys_in_lines(lv, i as int));
    }
    proof {
        if ls@.len() == 0 {
            assert(keys_in_lines(lv, 0) =~= keys_in_lines(lv, 1));
            assert(vecs_view(keys@) == keys_in_lines(lv, 1));
            assert(vecs_view(keys@) == keys_in_lines(lv, lv.len() as int));
        } else {
            assert(i == ls@.len());
            assert(vecs_view(keys@) == keys_in_lines(lv, i as int));
        }
    }
    keys
}

/// The fields after taking out, for each of the first `n` names of `keys`,
/// the field of that name: the fields taken, in order, and those left.
pub open spec fn pick(
    keys: Seq<Seq<char>>,
    n: int,
    fs: Seq<(Seq<char>, Seq<char>)>,
) -> (Seq<(Seq<char>, Seq<char>)>, Seq<(Seq<char>, Seq<char>)>)
    decreases n,
{
    if n <= 0 {
        (Seq::empty(), fs)
    } else {
        let (o, r) = pick(keys, n - 1, fs);
        match key_index(r, keys[n - 1]) {
            Some(i) => (o.push(r[i]), r.remove(i)),
            None => (o, r),
        }
    }
}

/// The fields of an entry in the order to write them into the block `b`:
/// those the block names, in its order, then the rest by name.
pub open spec fn ordered_spec(fields: Seq<(Seq<char>, Seq<char>)>, b: Seq<char>) -> Seq<
    (Seq<char>, Seq<char>),
> {
    let keys = block_keys(b);
    let (o, r) = pick(keys, keys.len() as int, stable_sort(fields, name_order()));
    o + r
}

proof fn lemma_pick_keeps_fields(keys: Seq<Seq<char>>, n: int, fs: Seq<(Seq<char>, Seq<char>)>)
    requires
        0 <= n <= keys.len(),
    ensures
        (pick(keys, n, fs).0 + pick(keys, n, fs).1).to_multiset() == fs.to_multiset(),
    decreases n,
{
    broadcast use vstd::multiset::group_multiset_axioms;
    broadcast use vstd::seq_lib::group_to_multiset_ensures;
    broadcast use vstd::seq_lib::lemma_multiset_commutative;

    if n > 0 {
        lemma_pick_keeps_fields(keys, n - 1, fs);
        let (o, r) = pick(keys, n - 1, fs);
        crate::domain::fields::lemma_key_index_from(r, keys[n - 1], 0);
        match key_index(r, keys[n - 1]) {
            Some(i) => {
                let x = r[i];
                assert(o.push(x).to_multiset() =~= o.to_multiset().insert(x));
                assert(r.remove(i).to_multiset() =~= r.to_multiset().remove(x));
                vstd::seq_lib::to_multiset_contains(r, x);
                assert(r.contains(x));
                assert((o.push(x) + r.remove(i)).to_multiset() =~= (o + r).to_multiset());
            },
            None => {},
        }
    }
}

/// Writing an entry back keeps every one of its fields: the fields in the
/// order they are written are the entry's fields, each exactly as often,
/// only reordered (those the old block names first, in its order).
pub proof fn lemma_ordered_fields_keep_all(fields: Seq<(Seq<char>, Seq<char>)>, b: Seq<char>)
    ensures
        ordered_spec(fields, b).to_multiset() == fields.to_multiset(),
        ordered_spec(fields, b).len() == fields.len(),
{
    broadcast use vstd::seq_lib::group_to_multiset_ensures;

    let keys = block_keys(b);
    let sorted = stable_sort(fields, name_order());
    crate::sorting::lemma_stable_sort_perm(fields, name_order());
    lemma_pick_keeps_fields(keys, keys.len() as int, sorted);
    assert(ordered_spec(fields, b).to_multiset().len() == fields.to_multiset().len());
}

/// The fields of `entry` in the order to write them into `block`.
pub fn ordered_fields(entry: &Entry, block: &[char]) -> (r: Vec<(String, String)>)
    ensures
        pairs_view(r@) == ordered_spec(entry.fields@, block@),
{
    let mut rest = sorted_fields(&entry.fields);
    let keys = field_keys_in_block(block);
    let ghost kv = vecs_view(keys@);
    let ghost sorted = pairs_view(rest@);
    let mut ordered: Vec<(String, String)> = Vec::new();
    let mut i: usize = 0;
    while i < keys.len()
        invariant
            i <= keys@.len(),
            kv == vecs_view(keys@),
            pick(kv, i as int, sorted) == (pairs_view(ordered@), pairs_view(rest@)),
        decreases keys.len() - i,
    {
        let key = string_of(&keys[i]);
        let mut j: usize = 0;
        let ghost rv = pairs_view(rest@);
        while j < rest.len() && !(rest[j].0 == key)
            invariant
                j <= rest@.len(),
                rv == pairs_view(rest@),
                key_index(rv, key@) == crate::domain::fields::key_index_from(rv, key@, j as int),
            decreases rest.len() - j,
        {
            assert(rv[j as int] == (rest@[j as int].0@, rest@[j as int].1@));
            j += 1;
        }
        if j < rest.len() {
            assert(rv[j as int] == (rest@[j as int].0@, rest@[j as int].1@));
            assert(rv[j as int].0 == key@);
            let f = rest.remove(j);
            ordered.push(f);
            assert(pairs_view(rest@) =~= rv.remove(j as int));
            assert(pairs_view(ordered@) =~= pick(kv, i as int, sorted).0.push(rv[j as int]));
        }
        assert(kv[i as int] == key@);
        i += 1;
    }
    let ghost o = pairs_view(ordered@);
    let ghost r = pairs_view(rest@);
    ordered.append(&mut rest);
    assert(pairs_view(ordered@) =~= o + r);
    ordered
}

} // verus!
