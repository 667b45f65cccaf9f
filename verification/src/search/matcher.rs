//! The outside matching primitives behind search: `nucleo-matcher` scoring
//! and the Unicode upper-case test of `char`.
use vstd::prelude::*;

use nucleo_matcher::pattern::{AtomKind, CaseMatching, Normalization, Pattern};
use nucleo_matcher::{Config, Matcher, Utf32Str};

verus! {

/// Whether `c` has the Unicode `Uppercase` property.
pub uninterp spec fn is_uppercase_char(c: char) -> bool;

/// `char::is_uppercase`: the contract names its result `is_uppercase_char`.
#[verifier::external_body]
pub(crate) fn char_is_uppercase(c: char) -> (r: bool)
    ensures
        r == is_uppercase_char(c),
{
    c.is_uppercase()
}

/// The score `nucleo-matcher` gives the pattern `needle` (split into words
/// at unescaped spaces, each word matched on its own, scores added) in
/// `haystack`, matching case exactly or not, fuzzily or as a substring; no
/// score when some word does not match.
pub uninterp spec fn pattern_score_of(
    haystack: Seq<char>,
    needle: Seq<char>,
    case_sensitive: bool,
    fuzzy: bool,
) -> Option<u32>;

/// The number of runs of characters other than the space in `s`: at least
/// the number of words (atoms) `Pattern::new` makes of `s`, which splits
/// it at spaces not escaped by a backslash and drops empty words.
pub open spec fn space_runs(s: Seq<char>) -> nat
    decreases s.len(),
{
    if s.len() == 0 {
        0
    } else if s.last() != ' ' && (s.len() == 1 || s[s.len() - 2] == ' ') {
        space_runs(s.drop_last()) + 1
    } else {
        space_runs(s.drop_last())
    }
}

/// `space_runs`, computed.
pub fn space_runs_exec(s: &[char]) -> (r: usize)
    ensures
        r == space_runs(s@),
{
    let mut n: usize = 0;
    let mut i: usize = 0;
    assert(s@.take(0) =~= Seq::<char>::empty());
    while i < s.len()
        invariant
            i <= s@.len(),
            n <= i,
            n == space_runs(s@.take(i as int)),
        decreases s.len() - i,
    {
        assert(s@.take(i + 1).drop_last() =~= s@.take(i as int));
        if s[i] != ' ' && (i == 0 || s[i - 1] == ' ') {
            n = n + 1;
        }
        i += 1;
    }
    assert(s@.take(s@.len() as int) =~= s@);
    n
}

/// Builds `Pattern::new(needle, case, Normalization::Smart, kind)` and
/// returns `Pattern::score` on `haystack` with a default `Matcher`. The
/// contract claims only that the result is a function of the four
/// arguments, named `pattern_score_of`. The matcher asserts that the
/// haystack has at most `u32::MAX` characters; `Pattern::score` adds one
/// `u16` score per word in a `u32`, which cannot overflow with at most
/// 65537 words.
#[verifier::external_body]
pub(crate) fn pattern_score(haystack: &str, needle: &str, case_sensitive: bool, fuzzy: bool) -> (r:
    Option<u32>)
    requires
        haystack@.len() <= u32::MAX,
        space_runs(needle@) <= 65537,
    ensures
        r == pattern_score_of(haystack@, needle@, case_sensitive, fuzzy),
{
    let case = if case_sensitive { CaseMatching::Respect } else { CaseMatching::Ignore };
    let kind = if fuzzy { AtomKind::Fuzzy } else { AtomKind::Substring };
    let pattern = Pattern::new(needle, case, Normalization::Smart, kind);
    let mut buf = Vec::new();
    pattern.score(Utf32Str::new(haystack, &mut buf), &mut Matcher::new(Config::DEFAULT))
}

} // verus!
