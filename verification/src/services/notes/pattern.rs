//! Placeholders in note templates and file-name patterns:
//! `{name}`, `{name:content}`, `{name/default}` and `{name:content/default}`.
use vstd::prelude::*;

use crate::text::{is_ascii_alnum, is_ascii_alpha, slice_range};

verus! {

/// A character that may start a placeholder name.
pub open spec fn is_var_start(c: char) -> bool {
    is_ascii_alpha(c) || c == '_'
}

/// A character that may continue a placeholder name.
pub open spec fn is_var_char(c: char) -> bool {
    is_ascii_alnum(c) || c == '_'
}

/// The end of the run from `i` of characters satisfying the class `k`:
/// 0 for name characters, 1 for anything but `}` and `/`, 2 for anything
/// but `}`.
pub open spec fn in_class(c: char, k: nat) -> bool {
    if k == 0 {
        is_var_char(c)
    } else if k == 1 {
        c != '}' && c != '/'
    } else {
        c != '}'
    }
}

/// The end of the run of class-`k` characters of `t` from `i`.
pub open spec fn class_run(t: Seq<char>, i: int, k: nat) -> int
    decreases t.len() - i,
{
    if 0 <= i < t.len() && in_class(t[i], k) {
        class_run(t, i + 1, k)
    } else {
        i
    }
}

/// A placeholder occurrence: its range, the range of its name, and the
/// ranges of its content (after `:`) and default (after `/`), if any.
pub struct Placeholder {
    pub start: int,
    pub end: int,
    pub name: (int, int),
    pub content: Option<(int, int)>,
    pub default: Option<(int, int)>,
}

/// The placeholder that starts at `s`, if one does: `{`, a name of letters,
/// digits and `_` not starting with a digit, optionally `:` and content
/// without `}` or `/`, optionally `/` and a default without `}`, and `}`.
pub open spec fn placeholder_at(t: Seq<char>, s: int) -> Option<Placeholder> {
    if 0 <= s && s + 1 < t.len() && t[s] == '{' && is_var_start(t[s + 1]) {
        let ne = class_run(t, s + 2, 0);
        let (content, i) = if ne < t.len() && t[ne] == ':' {
            let ce = class_run(t, ne + 1, 1);
            (Some((ne + 1, ce)), ce)
        } else {
            (None, ne)
        };
        let (default, j) = if i < t.len() && t[i] == '/' {
            let de = class_run(t, i + 1, 2);
            (Some((i + 1, de)), de)
        } else {
            (None, i)
        };
        if j < t.len() && t[j] == '}' {
            Some(
                Placeholder {
                    start: s,
                    end: j + 1,
                    name: (s + 1, ne),
                    content,
                    default,
                },
            )
        } else {
            None
        }
    } else {
        None
    }
}

/// The first position at or after `p` where a placeholder starts.
pub open spec fn next_placeholder(t: Seq<char>, p: int) -> Option<int>
    decreases t.len() + 1 - p,
{
    if p < 0 || p >= t.len() {
        None
    } else if placeholder_at(t, p) is Some {
        Some(p)
    } else {
        next_placeholder(t, p + 1)
    }
}

proof fn lemma_class_run(t: Seq<char>, i: int, k: nat)
    requires
        0 <= i <= t.len(),
    ensures
        i <= class_run(t, i, k) <= t.len(),
        forall|j: int| i <= j < class_run(t, i, k) ==> in_class(#[trigger] t[j], k),
        class_run(t, i, k) < t.len() ==> !in_class(t[class_run(t, i, k)], k),
    decreases t.len() - i,
{
    if i < t.len() && in_class(t[i], k) {
        lemma_class_run(t, i + 1, k);
    }
}

/// Facts about a placeholder found at `s`.
pub proof fn lemma_placeholder_at(t: Seq<char>, s: int)
    requires
        placeholder_at(t, s) is Some,
    ensures
        ({
            let ph = placeholder_at(t, s)->Some_0;
            &&& ph.start == s
            &&& s + 2 < ph.end <= t.len()
            &&& s + 1 < ph.name.1 < ph.end
            &&& ph.name.0 == s + 1
            &&& ph.content matches Some(c) ==> ph.name.1 < c.0 <= c.1 < ph.end
            &&& ph.default matches Some(d) ==> ph.name.1 < d.0 <= d.1 < ph.end
        }),
{
    lemma_class_run(t, s + 2, 0);
    let ne = class_run(t, s + 2, 0);
    if ne < t.len() && t[ne] == ':' {
        lemma_class_run(t, ne + 1, 1);
        let ce = class_run(t, ne + 1, 1);
        if ce < t.len() && t[ce] == '/' {
            lemma_class_run(t, ce + 1, 2);
        }
    } else if ne < t.len() && t[ne] == '/' {
        lemma_class_run(t, ne + 1, 2);
    }
}

pub proof fn lemma_next_placeholder(t: Seq<char>, p: int)
    requires
        0 <= p,
    ensures
        next_placeholder(t, p) matches Some(s) ==> p <= s < t.len() && placeholder_at(t, s) is Some,
    decreases t.len() + 1 - p,
{
    if p < t.len() && placeholder_at(t, p) is None {
        lemma_next_placeholder(t, p + 1);
    }
}

/// A placeholder in exec form: its range and those of its parts.
#[derive(Debug, Clone, Copy)]
pub struct Found {
    pub start: usize,
    pub end: usize,
    pub name: (usize, usize),
    pub content: Option<(usize, usize)>,
    pub default: Option<(usize, usize)>,
}

impl Found {
    pub open spec fn view_of(self) -> Placeholder {
        Placeholder {
            start: self.start as int,
            end: self.end as int,
            name: (self.name.0 as int, self.name.1 as int),
            content: match self.content {
                Some(c) => Some((c.0 as int, c.1 as int)),
                None => None,
            },
            default: match self.default {
                Some(d) => Some((d.0 as int, d.1 as int)),
                None => None,
            },
        }
    }
}

fn class_run_exec(t: &[char], i: usize, k: u8) -> (r: usize)
    requires
        i <= t.len(),
        k <= 2,
    ensures
        r == class_run(t@, i as int, k as nat),
        i <= r <= t.len(),
{
    let mut j = i;
    while j < t.len() && in_class_exec(t[j], k)
        invariant
            i <= j <= t.len(),
            k <= 2,
            class_run(t@, i as int, k as nat) == class_run(t@, j as int, k as nat),
        decreases t.len() - j,
    {
        j += 1;
    }
    j
}

fn in_class_exec(c: char, k: u8) -> (r: bool)
    requires
        k <= 2,
    ensures
        r == in_class(c, k as nat),
{
    if k == 0 {
        is_var_char_exec(c)
    } else if k == 1 {
        c != '}' && c != '/'
    } else {
        c != '}'
    }
}

fn is_var_char_exec(c: char) -> (r: bool)
    ensures
        r == is_var_char(c),
{
    crate::text::is_ascii_alnum_char(c) || c == '_'
}

/// The placeholder that starts at `s`, if any.
pub fn placeholder_at_exec(t: &[char], s: usize) -> (r: Option<Found>)
    requires
        s <= t.len(),
    ensures
        match placeholder_at(t@, s as int) {
            Some(ph) => r matches Some(f) && f.view_of() == ph,
            None => r is None,
        },
{
    if !(s < t.len() && t.len() - s > 1 && t[s] == '{' && (crate::text::is_ascii_alpha_char(
        t[s + 1],
    ) || t[s + 1] == '_')) {
        return None;
    }
    let ne = class_run_exec(t, s + 2, 0);
    let (content, i) = if ne < t.len() && t[ne] == ':' {
        let ce = class_run_exec(t, ne + 1, 1);
        (Some((ne + 1, ce)), ce)
    } else {
        (None, ne)
    };
    let (default, j) = if i < t.len() && t[i] == '/' {
        let de = class_run_exec(t, i + 1, 2);
        (Some((i + 1, de)), de)
    } else {
        (None, i)
    };
    if j < t.len() && t[j] == '}' {
        Some(Found { start: s, end: j + 1, name: (s + 1, ne), content, default })
    } else {
        None
    }
}

/// The first placeholder at or after `p`.
pub fn next_placeholder_exec(t: &[char], p: usize) -> (r: Option<Found>)
    requires
        p <= t.len(),
    ensures
        match next_placeholder(t@, p as int) {
            Some(s) => r matches Some(f) && f.view_of() == placeholder_at(t@, s)->Some_0,
            None => r is None,
        },
{
    let mut s = p;
    while s < t.len()
        invariant
            p <= s <= t.len(),
            next_placeholder(t@, p as int) == next_placeholder(t@, s as int),
        decreases t.len() - s,
    {
        if let Some(f) = placeholder_at_exec(t, s) {
            return Some(f);
        }
        s += 1;
    }
    None
}

/// The text of `t[r.0..r.1]`.
pub fn range_text(t: &[char], r: (usize, usize)) -> (out: Vec<char>)
    requires
        r.0 <= r.1 <= t.len(),
    ensures
        out@ == t@.subrange(r.0 as int, r.1 as int),
{
    slice_range(t, r.0, r.1)
}

} // verus!
