//! Finding an entry's block in BibTeX source text.
use vstd::prelude::*;

use crate::domain::scan::{
    lemma_skip_alpha, lemma_skip_ascii_ws, skip_alpha, skip_alpha_exec, skip_ascii_ws,
    skip_ascii_ws_exec,
};
use crate::text::{
    chars_eq, find, find_exec, is_ws, lemma_find_from_bounds, ltrim, skip_ws_from, trim,
    trim_bounds,
};

verus! {

/// A character that ends a citation key in an entry's header.
pub open spec fn is_key_stop(c: char) -> bool {
    c == ',' || c == '\n' || c == '\r' || c == '}' || c == ')'
}

/// The end of the citation key that starts at `i`.
pub open spec fn key_end(s: Seq<char>, i: int) -> int
    decreases s.len() - i,
{
    if 0 <= i < s.len() && !is_key_stop(s[i]) {
        key_end(s, i + 1)
    } else {
        i
    }
}

/// The position after the `@kind` header and whitespace that follow the
/// `@` at `at`.
pub open spec fn header_end(b: Seq<char>, at: int) -> int {
    skip_ascii_ws(b, skip_alpha(b, skip_ascii_ws(b, at + 1)))
}

/// The citation key of the block `b`: after its first `@`, the kind and
/// the opening `{` or `(`, the trimmed text up to the first `,`, line
/// break, `}` or `)`; none when that is empty or there is no such header.
pub open spec fn entry_key_of(b: Seq<char>) -> Option<Seq<char>> {
    match find(b, seq!['@']) {
        None => None,
        Some(at) => {
            let c = header_end(b, at);
            if c >= b.len() || !(b[c] == '{' || b[c] == '(') {
                None
            } else {
                let ks = skip_ascii_ws(b, c + 1);
                let k = trim(b.subrange(ks, key_end(b, ks)));
                if k.len() == 0 {
                    None
                } else {
                    Some(k)
                }
            }
        },
    }
}

/// Whether the first character of `b` that is not whitespace is `@`.
pub open spec fn starts_like_entry(b: Seq<char>) -> bool {
    ltrim(b).len() > 0 && ltrim(b)[0] == '@'
}

/// The index just after the block body that starts at `i` with the given
/// depths: as for `close_block`, except that text between double quotes
/// (where a backslash escapes the next character) does not count.
pub open spec fn close_quoted(
    s: Seq<char>,
    i: int,
    brace: nat,
    paren: nat,
    in_quotes: bool,
    escaped: bool,
) -> int
    decreases s.len() - i,
{
    if i < 0 || i >= s.len() {
        i
    } else if in_quotes {
        if escaped {
            close_quoted(s, i + 1, brace, paren, true, false)
        } else if s[i] == '\\' {
            close_quoted(s, i + 1, brace, paren, true, true)
        } else if s[i] == '"' {
            close_quoted(s, i + 1, brace, paren, false, false)
        } else {
            close_quoted(s, i + 1, brace, paren, true, false)
        }
    } else {
        let b = crate::domain::scan::brace_step(s[i], brace);
        let p = crate::domain::scan::paren_step(s[i], paren);
        if b == 0 && p == 0 {
            i + 1
        } else {
            close_quoted(s, i + 1, b, p, s[i] == '"', false)
        }
    }
}

pub proof fn lemma_close_quoted(s: Seq<char>, i: int, brace: nat, paren: nat, q: bool, e: bool)
    requires
        0 <= i <= s.len(),
    ensures
        i <= close_quoted(s, i, brace, paren, q, e) <= s.len(),
    decreases s.len() - i,
{
    if i < s.len() {
        if q {
            if e {
                lemma_close_quoted(s, i + 1, brace, paren, true, false);
            } else if s[i] == '\\' {
                lemma_close_quoted(s, i + 1, brace, paren, true, true);
            } else if s[i] == '"' {
                lemma_close_quoted(s, i + 1, brace, paren, false, false);
            } else {
                lemma_close_quoted(s, i + 1, brace, paren, true, false);
            }
        } else {
            let b = crate::domain::scan::brace_step(s[i], brace);
            let p = crate::domain::scan::paren_step(s[i], paren);
            if !(b == 0 && p == 0) {
                lemma_close_quoted(s, i + 1, b, p, s[i] == '"', false);
            }
        }
    }
}

/// The entry blocks of `s` at or after `i`, as character ranges: an `@`,
/// optional whitespace, letters, optional whitespace and `{` or `(` start a
/// block that runs until its braces and parentheses close (ignoring quoted
/// text); blocks without a citation key are left out.
pub open spec fn scan_entries_from(s: Seq<char>, i: int) -> Seq<(int, int)>
    decreases s.len() - i,
{
    if i < 0 || i >= s.len() {
        Seq::empty()
    } else if s[i] != '@' {
        scan_entries_from(s, i + 1)
    } else {
        let c = header_end(s, i);
        proof {
            lemma_skip_ascii_ws(s, i + 1);
            lemma_skip_alpha(s, skip_ascii_ws(s, i + 1));
            lemma_skip_ascii_ws(s, skip_alpha(s, skip_ascii_ws(s, i + 1)));
        }
        if c >= s.len() || !(s[c] == '{' || s[c] == '(') {
            scan_entries_from(s, c)
        } else {
            let e = if s[c] == '{' {
                close_quoted(s, c + 1, 1, 0, false, false)
            } else {
                close_quoted(s, c + 1, 0, 1, false, false)
            };
            proof {
                lemma_close_quoted(s, c + 1, 1, 0, false, false);
                lemma_close_quoted(s, c + 1, 0, 1, false, false);
            }
            if entry_key_of(s.subrange(i, e)) is Some {
                seq![(i, e)] + scan_entries_from(s, e)
            } else {
                scan_entries_from(s, e)
            }
        }
    }
}

/// The first block of `blocks` at or after `j` whose citation key is `k`.
pub open spec fn first_with_key(s: Seq<char>, blocks: Seq<(int, int)>, k: Seq<char>, j: int) -> Option<
    (int, int),
>
    decreases blocks.len() - j,
{
    if j < 0 || j >= blocks.len() {
        None
    } else if entry_key_of(s.subrange(blocks[j].0, blocks[j].1)) == Some(k) {
        Some(blocks[j])
    } else {
        first_with_key(s, blocks, k, j + 1)
    }
}

/// Where the entry with citation key `k` is in `s`: its recorded range
/// `bs..be` (clamped to `s`) when that still holds an entry block with key
/// `k`, otherwise the first entry block with key `k`.
pub open spec fn locate_spec(s: Seq<char>, k: Seq<char>, bs: nat, be: nat) -> Option<(int, int)> {
    let a = if bs < s.len() {
        bs as int
    } else {
        s.len() as int
    };
    let b = if be < s.len() {
        be as int
    } else {
        s.len() as int
    };
    if a < b && starts_like_entry(s.subrange(a, b)) && entry_key_of(s.subrange(a, b)) == Some(k) {
        Some((a, b))
    } else {
        first_with_key(s, scan_entries_from(s, 0), k, 0)
    }
}

/// The position after the citation key that starts at `i`.
fn key_end_exec(s: &[char], i: usize) -> (r: usize)
    requires
        i <= s.len(),
    ensures
        r == key_end(s@, i as int),
        i <= r <= s.len(),
{
    let mut j = i;
    while j < s.len() && !(s[j] == ',' || s[j] == '\n' || s[j] == '\r' || s[j] == '}' || s[j]
        == ')')
        invariant
            i <= j <= s.len(),
            key_end(s@, i as int) == key_end(s@, j as int),
        decreases s.len() - j,
    {
        j += 1;
    }
    j
}

/// The citation key of the block `s[lo..hi]` as a range of `s`.
pub fn entry_key_range(s: &[char], lo: usize, hi: usize) -> (r: Option<(usize, usize)>)
    requires
        lo <= hi <= s.len(),
    ensures
        match entry_key_of(s@.subrange(lo as int, hi as int)) {
            None => r is None,
            Some(k) => r matches Some(p) && lo <= p.0 <= p.1 <= hi && s@.subrange(
                p.0 as int,
                p.1 as int,
            ) == k,
        },
{
    let b = crate::text::slice_range(s, lo, hi);
    let at_pat: Vec<char> = vec!['@'];
    assert(at_pat@ =~= seq!['@']);
    proof {
        lemma_find_from_bounds(b@, at_pat@, 0);
    }
    let at = match find_exec(&b, &at_pat, 0) {
        None => return None,
        Some(at) => at,
    };
    let c1 = skip_ascii_ws_exec(&b, at + 1);
    let c2 = skip_alpha_exec(&b, c1);
    let c = skip_ascii_ws_exec(&b, c2);
    if c >= b.len() || !(b[c] == '{' || b[c] == '(') {
        return None;
    }
    let ks = skip_ascii_ws_exec(&b, c + 1);
    let ke = key_end_exec(&b, ks);
    let (x, y) = trim_bounds(&b, ks, ke);
    if x < y {
        assert(b@.subrange(x as int, y as int) =~= s@.subrange(lo + x, lo + y));
        Some((lo + x, lo + y))
    } else {
        None
    }
}

/// The citation key of the block `block`, if it has one.
pub fn extract_entry_key(block: &[char]) -> (r: Option<Vec<char>>)
    ensures
        match entry_key_of(block@) {
            None => r is None,
            Some(k) => r matches Some(v) && v@ == k,
        },
{
    assert(block@.subrange(0, block@.len() as int) =~= block@);
    match entry_key_range(block, 0, block.len()) {
        None => None,
        Some((x, y)) => Some(crate::text::slice_range(block, x, y)),
    }
}

/// Whether the first non-whitespace character of `s[lo..hi]` is `@`.
fn starts_like_entry_block(s: &[char], lo: usize, hi: usize) -> (r: bool)
    requires
        lo <= hi <= s.len(),
    ensures
        r == starts_like_entry(s@.subrange(lo as int, hi as int)),
{
    let b = crate::text::slice_range(s, lo, hi);
    let i = skip_ws_from(&b, 0);
    assert(b@.subrange(0, b@.len() as int) =~= b@);
    if i < b.len() {
        assert(ltrim(b@)[0] == b@[i as int]);
        b[i] == '@'
    } else {
        false
    }
}

/// The end of the block body that starts at `i`.
fn close_quoted_exec(s: &[char], i: usize, brace: usize, paren: usize) -> (r: usize)
    requires
        1 <= i <= s.len(),
        brace + paren <= 1,
    ensures
        r == close_quoted(s@, i as int, brace as nat, paren as nat, false, false),
        i <= r <= s.len(),
{
    let mut j = i;
    let mut b = brace;
    let mut p = paren;
    let mut q = false;
    let mut e = false;
    while j < s.len()
        invariant
            i <= j <= s.len(),
            b <= j,
            p <= j,
            close_quoted(s@, i as int, brace as nat, paren as nat, false, false) == close_quoted(
                s@,
                j as int,
                b as nat,
                p as nat,
                q,
                e,
            ),
            !q ==> !e,
        decreases s.len() - j,
    {
        let c = s[j];
        if q {
            if e {
                e = false;
            } else if c == '\\' {
                e = true;
            } else if c == '"' {
                q = false;
            }
            j += 1;
        } else {
            if c == '"' {
                q = true;
            } else if c == '{' {
                b = b + 1;
            } else if c == '}' {
                if b > 0 {
                    b = b - 1;
                }
            } else if c == '(' {
                p = p + 1;
            } else if c == ')' {
                if p > 0 {
                    p = p - 1;
                }
            }
            j += 1;
            if b == 0 && p == 0 {
                return j;
            }
        }
    }
    j
}

/// The entry blocks of `source` (see `scan_entries_from`), as ranges.
pub fn scan_entry_blocks(source: &[char]) -> (r: Vec<(usize, usize)>)
    ensures
        r@.len() == scan_entries_from(source@, 0).len(),
        forall|k: int|
            0 <= k < r@.len() ==> (#[trigger] r@[k]).0 == scan_entries_from(source@, 0)[k].0
                && r@[k].1 == scan_entries_from(source@, 0)[k].1 && r@[k].0 < r@[k].1
                <= source@.len(),
{
    let mut out: Vec<(usize, usize)> = Vec::new();
    let mut index: usize = 0;
    let ghost all = scan_entries_from(source@, 0);
    assert(all.skip(0) =~= all);
    while index < source.len()
        invariant
            index <= source@.len(),
            all == scan_entries_from(source@, 0),
            out@.len() <= all.len(),
            scan_entries_from(source@, index as int) == all.skip(out@.len() as int),
            forall|k: int|
                0 <= k < out@.len() ==> (#[trigger] out@[k]).0 == all[k].0 && out@[k].1
                    == all[k].1 && out@[k].0 < out@[k].1 <= source@.len(),
        decreases source@.len() - index,
    {
        if source[index] != '@' {
            index += 1;
            continue;
        }
        let start = index;
        let a = skip_ascii_ws_exec(source, index + 1);
        let bb = skip_alpha_exec(source, a);
        let c = skip_ascii_ws_exec(source, bb);
        if c >= source.len() || !(source[c] == '{' || source[c] == '(') {
            index = c;
            continue;
        }
        let end = if source[c] == '{' {
            close_quoted_exec(source, c + 1, 1, 0)
        } else {
            close_quoted_exec(source, c + 1, 0, 1)
        };
        if entry_key_range(source, start, end).is_some() {
            assert(scan_entries_from(source@, index as int)[0] == (start as int, end as int));
            assert(scan_entries_from(source@, index as int).len() > 0);
            assert(all.skip(out@.len() as int).len() == all.len() - out@.len());
            assert(all.skip(out@.len() as int)[0] == all[out@.len() as int]);
            assert(all.skip(out@.len() + 1int) =~= all.skip(out@.len() as int).drop_first());
            out.push((start, end));
        }
        index = end;
    }
    assert(all.skip(out@.len() as int).len() == 0);
    out
}

/// The range of the entry with citation key `id` in `source` (see
/// `locate_spec`).
pub fn locate_entry_block(source: &[char], id: &[char], byte_start: usize, byte_end: usize) -> (r:
    Option<(usize, usize)>)
    ensures
        match locate_spec(source@, id@, byte_start as nat, byte_end as nat) {
            None => r is None,
            Some(p) => r matches Some(q) && q.0 == p.0 && q.1 == p.1 && q.0 <= q.1 <= source@.len(),
        },
{
    let a = if byte_start < source.len() {
        byte_start
    } else {
        source.len()
    };
    let b = if byte_end < source.len() {
        byte_end
    } else {
        source.len()
    };
    if a < b && starts_like_entry_block(source, a, b) {
        if let Some((x, y)) = entry_key_range(source, a, b) {
            if chars_eq(&crate::text::slice_range(source, x, y), id) {
                return Some((a, b));
            }
        }
    }
    let blocks = scan_entry_blocks(source);
    let ghost bv = scan_entries_from(source@, 0);
    assert(locate_spec(source@, id@, byte_start as nat, byte_end as nat) == first_with_key(
        source@,
        bv,
        id@,
        0,
    ));
    let mut j: usize = 0;
    while j < blocks.len()
        invariant
            j <= blocks@.len(),
            bv == scan_entries_from(source@, 0),
            blocks@.len() == bv.len(),
            forall|k: int|
                0 <= k < blocks@.len() ==> (#[trigger] blocks@[k]).0 == bv[k].0 && blocks@[k].1
                    == bv[k].1 && blocks@[k].0 < blocks@[k].1 <= source@.len(),
            first_with_key(source@, bv, id@, 0) == first_with_key(source@, bv, id@, j as int),
            locate_spec(source@, id@, byte_start as nat, byte_end as nat) == first_with_key(
                source@,
                bv,
                id@,
                0,
            ),
        decreases blocks.len() - j,
    {
        let (x0, y0) = blocks[j];
        if let Some((x, y)) = entry_key_range(source, x0, y0) {
            if chars_eq(&crate::text::slice_range(source, x, y), id) {
                return Some((x0, y0));
            }
        }
        j += 1;
    }
    None
}

} // verus!
