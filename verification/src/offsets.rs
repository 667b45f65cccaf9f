//! Byte offsets in UTF-8 text: the byte at which each character starts.
use vstd::prelude::*;
use vstd::utf8::{char_is_scalar, encode_scalar, encode_utf8};

verus! {

/// The number of bytes of the UTF-8 encoding of `c`.
pub open spec fn utf8_width(c: char) -> nat {
    encode_scalar(c as u32).len()
}

/// The byte offset of character position `i` in `s`: the length of the
/// UTF-8 encoding of the first `i` characters.
pub open spec fn byte_offset(s: Seq<char>, i: int) -> nat {
    encode_utf8(s.take(i)).len()
}

/// The length of the UTF-8 encoding of `s`.
pub open spec fn byte_len(s: Seq<char>) -> nat {
    encode_utf8(s).len()
}

/// Whether byte offset `b` is where a character of `s` starts, or the end.
pub open spec fn is_char_offset(s: Seq<char>, b: nat) -> bool {
    exists|i: int| 0 <= i <= s.len() && #[trigger] byte_offset(s, i) == b
}

/// The character position at byte offset `b` (meaningful when
/// `is_char_offset(s, b)`).
pub open spec fn char_index_at(s: Seq<char>, b: nat) -> int {
    choose|i: int| 0 <= i <= s.len() && #[trigger] byte_offset(s, i) == b
}

/// Encoding a concatenation encodes each part.
pub proof fn lemma_encode_concat(a: Seq<char>, b: Seq<char>)
    ensures
        encode_utf8(a + b) == encode_utf8(a) + encode_utf8(b),
    decreases a.len(),
{
    if a.len() == 0 {
        assert(a + b =~= b);
        assert(encode_utf8(a) + encode_utf8(b) =~= encode_utf8(b));
    } else {
        assert((a + b).drop_first() =~= a.drop_first() + b);
        assert((a + b)[0] == a[0]);
        lemma_encode_concat(a.drop_first(), b);
        assert(encode_utf8(a + b) =~= encode_utf8(a) + encode_utf8(b));
    }
}

/// Each character adds its width to the byte offset.
pub proof fn lemma_byte_offset_step(s: Seq<char>, i: int)
    requires
        0 <= i < s.len(),
    ensures
        byte_offset(s, i + 1) == byte_offset(s, i) + utf8_width(s[i]),
        utf8_width(s[i]) >= 1,
{
    assert(s.take(i + 1) =~= s.take(i) + seq![s[i]]);
    lemma_encode_concat(s.take(i), seq![s[i]]);
    assert(seq![s[i]].drop_first() =~= Seq::<char>::empty());
    assert(encode_utf8(seq![s[i]]) =~= encode_scalar(s[i] as u32)) by {
        reveal_with_fuel(encode_utf8, 2);
    }
}

proof fn lemma_byte_offset_grows(s: Seq<char>, i: int, j: int)
    requires
        0 <= i <= j <= s.len(),
    ensures
        byte_offset(s, i) <= byte_offset(s, j),
        i < j ==> byte_offset(s, i) < byte_offset(s, j),
    decreases j - i,
{
    if i < j {
        lemma_byte_offset_grows(s, i + 1, j);
        lemma_byte_offset_step(s, i);
    }
}

/// Byte offsets grow strictly with the character position, up to the
/// whole text's length.
pub proof fn lemma_byte_offset_mono(s: Seq<char>, i: int, j: int)
    requires
        0 <= i <= j <= s.len(),
    ensures
        byte_offset(s, i) <= byte_offset(s, j) <= byte_len(s),
        i < j ==> byte_offset(s, i) < byte_offset(s, j),
{
    assert(s.take(s.len() as int) =~= s);
    lemma_byte_offset_grows(s, i, j);
    lemma_byte_offset_grows(s, j, s.len() as int);
}

/// The bytes between two character positions encode the characters between
/// them.
pub proof fn lemma_byte_offset_slice(s: Seq<char>, i: int, j: int)
    requires
        0 <= i <= j <= s.len(),
    ensures
        encode_utf8(s).subrange(byte_offset(s, i) as int, byte_offset(s, j) as int) == encode_utf8(
            s.subrange(i, j),
        ),
{
    assert(s =~= s.take(i) + s.subrange(i, j) + s.subrange(j, s.len() as int));
    lemma_encode_concat(s.take(i) + s.subrange(i, j), s.subrange(j, s.len() as int));
    lemma_encode_concat(s.take(i), s.subrange(i, j));
    assert(s.take(j) =~= s.take(i) + s.subrange(i, j));
    assert(encode_utf8(s).subrange(byte_offset(s, i) as int, byte_offset(s, j) as int) =~= encode_utf8(
        s.subrange(i, j),
    ));
}

/// At most one character position has a given byte offset.
pub proof fn lemma_char_index_unique(s: Seq<char>, i: int, b: nat)
    requires
        0 <= i <= s.len(),
        byte_offset(s, i) == b,
    ensures
        is_char_offset(s, b),
        char_index_at(s, b) == i,
{
    let k = char_index_at(s, b);
    if k < i {
        lemma_byte_offset_mono(s, k, i);
    } else if i < k {
        lemma_byte_offset_mono(s, i, k);
    }
}

/// The number of bytes of the UTF-8 encoding of `c`.
pub fn char_width(c: char) -> (r: usize)
    ensures
        r == utf8_width(c),
        1 <= r <= 4,
{
    proof {
        char_is_scalar(c);
    }
    let u = c as u32;
    if u < 0x80 {
        1
    } else if u < 0x800 {
        2
    } else if u < 0x10000 {
        3
    } else {
        4
    }
}

/// The byte offset of every character position of `s`, and of its end.
pub fn byte_offsets(s: &[char], total: usize) -> (r: Vec<usize>)
    requires
        total == byte_len(s@),
    ensures
        r@.len() == s@.len() + 1,
        forall|k: int| 0 <= k <= s@.len() ==> #[trigger] r@[k] == byte_offset(s@, k),
{
    let mut out: Vec<usize> = Vec::new();
    let mut acc: usize = 0;
    let mut i: usize = 0;
    assert(s@.take(0) =~= Seq::<char>::empty());
    while i < s.len()
        invariant
            i <= s@.len(),
            total == byte_len(s@),
            out@.len() == i,
            acc == byte_offset(s@, i as int),
            forall|k: int| 0 <= k < i ==> #[trigger] out@[k] == byte_offset(s@, k),
        decreases s.len() - i,
    {
        out.push(acc);
        proof {
            lemma_byte_offset_step(s@, i as int);
            lemma_byte_offset_mono(s@, i + 1, s@.len() as int);
        }
        acc = acc + char_width(s[i]);
        i += 1;
    }
    out.push(acc);
    out
}

/// The character position of byte offset `b`, given the offsets of every
/// position; none when no character starts there.
pub fn char_index_of(s: &[char], offsets: &Vec<usize>, b: usize) -> (r: Option<usize>)
    requires
        offsets@.len() == s@.len() + 1,
        forall|k: int| 0 <= k <= s@.len() ==> #[trigger] offsets@[k] == byte_offset(s@, k),
    ensures
        r is Some <==> is_char_offset(s@, b as nat),
        r matches Some(i) ==> i == char_index_at(s@, b as nat) && i <= s@.len() && byte_offset(
            s@,
            i as int,
        ) == b,
{
    let mut i: usize = 0;
    while i < offsets.len()
        invariant
            i <= offsets@.len(),
            offsets@.len() == s@.len() + 1,
            forall|k: int| 0 <= k <= s@.len() ==> #[trigger] offsets@[k] == byte_offset(s@, k),
            forall|k: int| 0 <= k < i ==> #[trigger] byte_offset(s@, k) != b,
        decreases offsets.len() - i,
    {
        if offsets[i] == b {
            proof {
                lemma_char_index_unique(s@, i as int, b as nat);
            }
            return Some(i);
        }
        i += 1;
    }
    proof {
        if is_char_offset(s@, b as nat) {
            let k = char_index_at(s@, b as nat);
            assert(byte_offset(s@, k) != b);
        }
    }
    None
}

} // verus!
