//! Splitting BibTeX source text into `@kind{...}` blocks.
use vstd::prelude::*;

use crate::text::{
    chars_eq, find, is_ascii_alpha, is_ascii_alpha_char, is_ascii_ws, is_ascii_ws_char, lower_seq,
    to_ascii_lower, trim, find_exec, lemma_find_from_bounds, slice_range, trim_bounds, string_of,
};

verus! {

/// What a `@kind{...}` block holds.
#[derive(Debug, Clone, Copy, PartialEq, Eq)]
pub enum BlockKind {
    Entry,
    StringDef,
    Comment,
    Preamble,
}

/// A block of the source: its kind and its character range `start..end`.
#[derive(Debug, Clone, Copy, PartialEq, Eq)]
pub struct Block {
    pub kind: BlockKind,
    pub start: usize,
    pub end: usize,
}

/// The first index at or after `i` that is not ASCII whitespace.
pub open spec fn skip_ascii_ws(s: Seq<char>, i: int) -> int
    decreases s.len() - i,
{
    if 0 <= i < s.len() && is_ascii_ws(s[i]) {
        skip_ascii_ws(s, i + 1)
    } else {
        i
    }
}

/// The first index at or after `i` that is not an ASCII letter.
pub open spec fn skip_alpha(s: Seq<char>, i: int) -> int
    decreases s.len() - i,
{
    if 0 <= i < s.len() && is_ascii_alpha(s[i]) {
        skip_alpha(s, i + 1)
    } else {
        i
    }
}

/// The first index at or after `i` holding a newline, or the end.
pub open spec fn skip_line(s: Seq<char>, i: int) -> int
    decreases s.len() - i,
{
    if 0 <= i < s.len() && s[i] != '\n' {
        skip_line(s, i + 1)
    } else {
        i
    }
}

/// Brace depth after reading `c` at depth `d`.
pub open spec fn brace_step(c: char, d: nat) -> nat {
    if c == '{' {
        d + 1
    } else if c == '}' {
        if d > 0 {
            (d - 1) as nat
        } else {
            0
        }
    } else {
        d
    }
}

/// Parenthesis depth after reading `c` at depth `d`.
pub open spec fn paren_step(c: char, d: nat) -> nat {
    if c == '(' {
        d + 1
    } else if c == ')' {
        if d > 0 {
            (d - 1) as nat
        } else {
            0
        }
    } else {
        d
    }
}

/// The index just after the character at which both depths, counted from
/// `i` with the given starting depths, return to zero; the end of `s` when
/// they never do.
pub open spec fn close_block(s: Seq<char>, i: int, brace: nat, paren: nat) -> int
    decreases s.len() - i,
{
    if i < 0 || i >= s.len() {
        i
    } else {
        let b = brace_step(s[i], brace);
        let p = paren_step(s[i], paren);
        if b == 0 && p == 0 {
            i + 1
        } else {
            close_block(s, i + 1, b, p)
        }
    }
}

/// The word after `@` names the kind: `string`, `comment` and `preamble`
/// (in any letter case) are special, anything else is an entry.
pub open spec fn kind_of(word: Seq<char>) -> BlockKind {
    let w = lower_seq(word);
    if w == seq!['s', 't', 'r', 'i', 'n', 'g'] {
        BlockKind::StringDef
    } else if w == seq!['c', 'o', 'm', 'm', 'e', 'n', 't'] {
        BlockKind::Comment
    } else if w == seq!['p', 'r', 'e', 'a', 'm', 'b', 'l', 'e'] {
        BlockKind::Preamble
    } else {
        BlockKind::Entry
    }
}

pub proof fn lemma_skip_ascii_ws(s: Seq<char>, i: int)
    requires
        0 <= i,
    ensures
        i <= skip_ascii_ws(s, i),
        i <= s.len() ==> skip_ascii_ws(s, i) <= s.len(),
    decreases s.len() - i,
{
    if 0 <= i < s.len() && is_ascii_ws(s[i]) {
        lemma_skip_ascii_ws(s, i + 1);
    }
}

pub proof fn lemma_skip_alpha(s: Seq<char>, i: int)
    requires
        0 <= i,
    ensures
        i <= skip_alpha(s, i),
        i <= s.len() ==> skip_alpha(s, i) <= s.len(),
    decreases s.len() - i,
{
    if 0 <= i < s.len() && is_ascii_alpha(s[i]) {
        lemma_skip_alpha(s, i + 1);
    }
}

pub proof fn lemma_skip_line(s: Seq<char>, i: int)
    requires
        0 <= i,
    ensures
        i <= skip_line(s, i),
        i <= s.len() ==> skip_line(s, i) <= s.len(),
    decreases s.len() - i,
{
    if 0 <= i < s.len() && s[i] != '\n' {
        lemma_skip_line(s, i + 1);
    }
}

pub proof fn lemma_close_block(s: Seq<char>, i: int, brace: nat, paren: nat)
    requires
        0 <= i <= s.len(),
    ensures
        i <= close_block(s, i, brace, paren) <= s.len(),
    decreases s.len() - i,
{
    if i < s.len() {
        let b = brace_step(s[i], brace);
        let p = paren_step(s[i], paren);
        if !(b == 0 && p == 0) {
            lemma_close_block(s, i + 1, b, p);
        }
    }
}

/// The blocks of `s` that start at or after `i`, in order: a `%` starts a
/// comment line that is skipped; an `@`, optional whitespace, a word of
/// letters, optional whitespace and `{` or `(` start a block, which runs
/// until the braces and parentheses opened in it are all closed.
pub open spec fn scan_from(s: Seq<char>, i: int) -> Seq<(BlockKind, int, int)>
    decreases s.len() - i,
{
    if i < 0 || i >= s.len() {
        Seq::empty()
    } else if s[i] == '%' {
        let j = skip_line(s, i + 1);
        proof {
            lemma_skip_line(s, i + 1);
        }
        scan_from(s, j)
    } else if s[i] != '@' {
        scan_from(s, i + 1)
    } else {
        let a = skip_ascii_ws(s, i + 1);
        let b = skip_alpha(s, a);
        let c = skip_ascii_ws(s, b);
        proof {
            lemma_skip_ascii_ws(s, i + 1);
            lemma_skip_alpha(s, a);
            lemma_skip_ascii_ws(s, b);
        }
        if c >= s.len() || !(s[c] == '{' || s[c] == '(') {
            scan_from(s, c)
        } else {
            let e = if s[c] == '{' {
                close_block(s, c + 1, 1, 0)
            } else {
                close_block(s, c + 1, 0, 1)
            };
            proof {
                lemma_close_block(s, c + 1, 1, 0);
                lemma_close_block(s, c + 1, 0, 1);
            }
            seq![(kind_of(s.subrange(a, b)), i, e)] + scan_from(s, e)
        }
    }
}

/// The kind named by the letters after the `@` at `i` (past any ASCII
/// whitespace): `string`, `comment` or `preamble` in any letter case, else
/// an entry.
pub open spec fn keyword_kind(s: Seq<char>, i: int) -> BlockKind {
    let a = skip_ascii_ws(s, i + 1);
    kind_of(s.subrange(a, skip_alpha(s, a)))
}

/// Whether the blocks `bs` of `s` all start at or after `lo`, each at an
/// `@` and ending within `s` after its start, one after another without
/// overlap.
pub open spec fn blocks_in_order(s: Seq<char>, bs: Seq<(BlockKind, int, int)>, lo: int) -> bool {
    &&& forall|k: int|
        0 <= k < bs.len() ==> lo <= (#[trigger] bs[k]).1 && bs[k].1 < bs[k].2 <= s.len() && s[bs[k].1]
            == '@' && bs[k].0 == keyword_kind(s, bs[k].1)
    &&& forall|k: int| 0 <= k < bs.len() - 1 ==> (#[trigger] bs[k]).2 <= bs[k + 1].1
}

proof fn lemma_scan_from_in_order(s: Seq<char>, i: int)
    requires
        0 <= i,
    ensures
        blocks_in_order(s, scan_from(s, i), i),
    decreases s.len() - i,
{
    if i < 0 || i >= s.len() {
    } else if s[i] == '%' {
        let j = skip_line(s, i + 1);
        lemma_skip_line(s, i + 1);
        lemma_scan_from_in_order(s, j);
    } else if s[i] != '@' {
        lemma_scan_from_in_order(s, i + 1);
    } else {
        let a = skip_ascii_ws(s, i + 1);
        let b = skip_alpha(s, a);
        let c = skip_ascii_ws(s, b);
        lemma_skip_ascii_ws(s, i + 1);
        lemma_skip_alpha(s, a);
        lemma_skip_ascii_ws(s, b);
        if c >= s.len() || !(s[c] == '{' || s[c] == '(') {
            lemma_scan_from_in_order(s, c);
        } else {
            let e = if s[c] == '{' {
                close_block(s, c + 1, 1, 0)
            } else {
                close_block(s, c + 1, 0, 1)
            };
            lemma_close_block(s, c + 1, 1, 0);
            lemma_close_block(s, c + 1, 0, 1);
            lemma_scan_from_in_order(s, e);
            let rest = scan_from(s, e);
            let all = scan_from(s, i);
            let head = (kind_of(s.subrange(a, b)), i, e);
            assert(all == seq![head] + rest);
            assert forall|k: int| 0 <= k < all.len() implies i <= (#[trigger] all[k]).1 && all[k].1 < all[k].2
                <= s.len() && s[all[k].1] == '@' && all[k].0 == keyword_kind(s, all[k].1) by {
                if k > 0 {
                    assert(all[k] == rest[k - 1]);
                }
            }
            assert forall|k: int| 0 <= k < all.len() - 1 implies (#[trigger] all[k]).2 <= all[k + 1].1 by {
                assert(all[k + 1] == rest[k]);
                if k > 0 {
                    assert(all[k] == rest[k - 1]);
                }
            }
        }
    }
}

/// The blocks found in a text each start at an `@` and end within the text
/// after their start, in order and without overlap; a block's kind is the
/// one its keyword names (`string`, `comment`, `preamble` in any letter
/// case; anything else is an entry).
pub proof fn lemma_scan_blocks_in_order(s: Seq<char>)
    ensures
        blocks_in_order(s, scan_from(s, 0), 0),
{
    lemma_scan_from_in_order(s, 0);
}

/// The abstract form of a list of blocks.
pub open spec fn blocks_view(v: Seq<Block>) -> Seq<(BlockKind, int, int)> {
    v.map_values(|b: Block| (b.kind, b.start as int, b.end as int))
}

pub fn skip_ascii_ws_exec(s: &[char], i: usize) -> (r: usize)
    requires
        i <= s.len(),
    ensures
        r == skip_ascii_ws(s@, i as int),
        i <= r <= s.len(),
{
    let mut j = i;
    while j < s.len() && is_ascii_ws_char(s[j])
        invariant
            i <= j <= s.len(),
            skip_ascii_ws(s@, i as int) == skip_ascii_ws(s@, j as int),
        decreases s.len() - j,
    {
        j += 1;
    }
    j
}

pub fn skip_alpha_exec(s: &[char], i: usize) -> (r: usize)
    requires
        i <= s.len(),
    ensures
        r == skip_alpha(s@, i as int),
        i <= r <= s.len(),
{
    let mut j = i;
    while j < s.len() && is_ascii_alpha_char(s[j])
        invariant
            i <= j <= s.len(),
            skip_alpha(s@, i as int) == skip_alpha(s@, j as int),
        decreases s.len() - j,
    {
        j += 1;
    }
    j
}

fn skip_line_exec(s: &[char], i: usize) -> (r: usize)
    requires
        i <= s.len(),
    ensures
        r == skip_line(s@, i as int),
        i <= r <= s.len(),
{
    let mut j = i;
    while j < s.len() && s[j] != '\n'
        invariant
            i <= j <= s.len(),
            skip_line(s@, i as int) == skip_line(s@, j as int),
        decreases s.len() - j,
    {
        j += 1;
    }
    j
}

fn close_block_exec(s: &[char], i: usize, brace: usize, paren: usize) -> (r: usize)
    requires
        1 <= i <= s.len(),
        brace + paren <= 1,
    ensures
        r == close_block(s@, i as int, brace as nat, paren as nat),
        i <= r <= s.len(),
{
    let mut j = i;
    let mut b = brace;
    let mut p = paren;
    while j < s.len()
        invariant
            i <= j <= s.len(),
            b <= j,
            p <= j,
            close_block(s@, i as int, brace as nat, paren as nat) == close_block(
                s@,
                j as int,
                b as nat,
                p as nat,
            ),
        decreases s.len() - j,
    {
        let c = s[j];
        if c == '{' {
            b = b + 1;
        } else if c == '}' {
            if b > 0 {
                b = b - 1;
            }
        } else if c == '(' {
            p = p + 1;
        } else if c == ')' {
            if p > 0 {
                p = p - 1;
            }
        }
        j += 1;
        if b == 0 && p == 0 {
            return j;
        }
    }
    j
}

fn kind_of_exec(word: &[char]) -> (r: BlockKind)
    ensures
        r == kind_of(word@),
{
    let w = to_ascii_lower(word);
    let string_word: Vec<char> = vec!['s', 't', 'r', 'i', 'n', 'g'];
    let comment_word: Vec<char> = vec!['c', 'o', 'm', 'm', 'e', 'n', 't'];
    let preamble_word: Vec<char> = vec!['p', 'r', 'e', 'a', 'm', 'b', 'l', 'e'];
    assert(string_word@ =~= seq!['s', 't', 'r', 'i', 'n', 'g']);
    assert(comment_word@ =~= seq!['c', 'o', 'm', 'm', 'e', 'n', 't']);
    assert(preamble_word@ =~= seq!['p', 'r', 'e', 'a', 'm', 'b', 'l', 'e']);
    if chars_eq(&w, &string_word) {
        BlockKind::StringDef
    } else if chars_eq(&w, &comment_word) {
        BlockKind::Comment
    } else if chars_eq(&w, &preamble_word) {
        BlockKind::Preamble
    } else {
        BlockKind::Entry
    }
}

/// The blocks of the source text `s`, in order (see `scan_from`).
pub fn scan_blocks(s: &[char]) -> (r: Vec<Block>)
    ensures
        blocks_view(r@) == scan_from(s@, 0),
        forall|k: int| 0 <= k < r@.len() ==> (#[trigger] r@[k]).start < r@[k].end <= s@.len(),
{
    let mut out: Vec<Block> = Vec::new();
    let mut index: usize = 0;
    while index < s.len()
        invariant
            index <= s.len(),
            blocks_view(out@) + scan_from(s@, index as int) == scan_from(s@, 0),
            forall|k: int| 0 <= k < out@.len() ==> (#[trigger] out@[k]).start < out@[k].end <= s@.len(),
        decreases s.len() - index,
    {
        if s[index] == '%' {
            index = skip_line_exec(s, index + 1);
        } else if s[index] != '@' {
            index += 1;
        } else {
            let start = index;
            let a = skip_ascii_ws_exec(s, index + 1);
            let b = skip_alpha_exec(s, a);
            let c = skip_ascii_ws_exec(s, b);
            if c >= s.len() || !(s[c] == '{' || s[c] == '(') {
                index = c;
            } else {
                let e = if s[c] == '{' {
                    close_block_exec(s, c + 1, 1, 0)
                } else {
                    close_block_exec(s, c + 1, 0, 1)
                };
                let word = slice_range(s, a, b);
                let kind = kind_of_exec(&word);
                let ghost prev = out@;
                out.push(Block { kind, start, end: e });
                assert(blocks_view(out@) =~= blocks_view(prev).push((kind, start as int, e as int)));
                assert(seq![(kind, start as int, e as int)] + scan_from(s@, e as int) == scan_from(
                    s@,
                    start as int,
                ));
                assert(blocks_view(out@) + scan_from(s@, e as int) =~= blocks_view(prev) + (seq![
                    (kind, start as int, e as int),
                ] + scan_from(s@, e as int)));
                index = e;
            }
        }
    }
    assert(blocks_view(out@) + scan_from(s@, index as int) =~= blocks_view(out@));
    out
}

/// The number of newlines in `s`.
pub open spec fn count_newlines(s: Seq<char>) -> nat
    decreases s.len(),
{
    if s.len() == 0 {
        0
    } else {
        count_newlines(s.drop_last()) + if s.last() == '\n' {
            1nat
        } else {
            0nat
        }
    }
}

/// The 1-based line on which the character at `index` stands (an index
/// past the end counts as the end).
pub open spec fn line_number(s: Seq<char>, index: int) -> nat {
    let n = if index < s.len() {
        index
    } else {
        s.len() as int
    };
    count_newlines(s.subrange(0, n)) + 1
}

pub proof fn lemma_count_newlines_bound(s: Seq<char>)
    ensures
        count_newlines(s) <= s.len(),
    decreases s.len(),
{
    if s.len() > 0 {
        lemma_count_newlines_bound(s.drop_last());
    }
}

/// The 1-based line number of the character at `index` of `source`.
pub fn line_number_at(source: &[char], index: usize) -> (r: usize)
    requires
        source@.len() < usize::MAX,
    ensures
        r == line_number(source@, index as int),
{
    let clamped = if index < source.len() {
        index
    } else {
        source.len()
    };
    let mut count: usize = 0;
    let mut i: usize = 0;
    while i < clamped
        invariant
            i <= clamped <= source@.len(),
            source@.len() < usize::MAX,
            count == count_newlines(source@.subrange(0, i as int)),
        decreases clamped - i,
    {
        proof {
            lemma_count_newlines_bound(source@.subrange(0, i as int));
            assert(source@.subrange(0, i + 1).drop_last() =~= source@.subrange(0, i as int));
        }
        if source[i] == '\n' {
            count += 1;
        }
        i += 1;
    }
    proof {
        lemma_count_newlines_bound(source@.subrange(0, clamped as int));
    }
    count + 1
}

/// The first line of `t` as `str::lines` yields it: up to the first
/// newline, without a `\r` that stands right before that newline; none for
/// empty text.
pub open spec fn first_line(t: Seq<char>) -> Option<Seq<char>> {
    if t.len() == 0 {
        None
    } else {
        match find(t, seq!['\n']) {
            Some(j) => {
                let raw = t.subrange(0, j);
                Some(
                    if raw.len() > 0 && raw.last() == '\r' {
                        raw.drop_last()
                    } else {
                        raw
                    },
                )
            },
            None => Some(t),
        }
    }
}

/// The citation key that a block's first line appears to name: the text
/// after its first `{`, up to the next `,` (or else the next `}`), trimmed.
pub open spec fn citekey_of_block(t: Seq<char>) -> Option<Seq<char>> {
    match first_line(t) {
        None => None,
        Some(l) => match find(l, seq!['{']) {
            None => None,
            Some(p) => {
                let rest = l.subrange(p + 1, l.len() as int);
                let q = match find(rest, seq![',']) {
                    Some(q) => Some(q),
                    None => find(rest, seq!['}']),
                };
                match q {
                    None => None,
                    Some(q) => Some(trim(rest.subrange(0, q))),
                }
            },
        },
    }
}

/// The citation key named on the first line of a block, for diagnostics.
pub fn extract_citekey_from_block(text: &[char]) -> (r: Option<String>)
    ensures
        r matches Some(k) ==> citekey_of_block(text@) == Some(k@),
        r is None ==> citekey_of_block(text@) is None,
{
    if text.len() == 0 {
        return None;
    }
    let nl: Vec<char> = vec!['\n'];
    assert(nl@ =~= seq!['\n']);
    proof {
        lemma_find_from_bounds(text@, nl@, 0);
    }
    let line: Vec<char> = match find_exec(text, &nl, 0) {
        Some(j) => {
            if j > 0 && text[j - 1] == '\r' {
                assert(text@.subrange(0, j as int).drop_last() =~= text@.subrange(0, j - 1));
                slice_range(text, 0, j - 1)
            } else {
                slice_range(text, 0, j)
            }
        },
        None => {
            assert(text@.subrange(0, text@.len() as int) =~= text@);
            slice_range(text, 0, text.len())
        },
    };
    assert(first_line(text@) == Some(line@));
    let open: Vec<char> = vec!['{'];
    assert(open@ =~= seq!['{']);
    proof {
        lemma_find_from_bounds(line@, open@, 0);
    }
    let p = match find_exec(&line, &open, 0) {
        Some(p) => p,
        None => {
            return None;
        },
    };
    let rest = slice_range(&line, p + 1, line.len());
    let comma: Vec<char> = vec![','];
    let close: Vec<char> = vec!['}'];
    assert(comma@ =~= seq![',']);
    assert(close@ =~= seq!['}']);
    proof {
        lemma_find_from_bounds(rest@, comma@, 0);
        lemma_find_from_bounds(rest@, close@, 0);
    }
    let q = match find_exec(&rest, &comma, 0) {
        Some(q) => q,
        None => match find_exec(&rest, &close, 0) {
            Some(q) => q,
            None => {
                return None;
            },
        },
    };
    let (a, b) = trim_bounds(&rest, 0, q);
    let key = slice_range(&rest, a, b);
    Some(string_of(&key))
}

} // verus!
