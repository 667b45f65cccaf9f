//! Stable insertion sort by a "less than or equal" relation.
//!
//! `stable_sort` is the specification: each element, in order, is inserted
//! after every element already placed that is not greater than it. It is a
//! permutation of its input, sorted whenever the relation is a total
//! preorder, and it keeps equal elements in their input order.
use vstd::prelude::*;
use vstd::relations::{sorted_by, strongly_connected, transitive};

verus! {

broadcast use vstd::seq_lib::group_to_multiset_ensures;

/// Where stable insertion puts `x` into `s`: after the leading elements of
/// `s` that are not greater than `x`.
pub open spec fn insert_pos<T>(s: Seq<T>, x: T, le: spec_fn(T, T) -> bool) -> int
    decreases s.len(),
{
    if s.len() == 0 || !le(s[0], x) {
        0
    } else {
        1 + insert_pos(s.drop_first(), x, le)
    }
}

/// `s` with `x` inserted at its stable position.
pub open spec fn insert_sorted<T>(s: Seq<T>, x: T, le: spec_fn(T, T) -> bool) -> Seq<T> {
    s.insert(insert_pos(s, x, le), x)
}

/// The stable insertion sort of `s` by `le`.
pub open spec fn stable_sort<T>(s: Seq<T>, le: spec_fn(T, T) -> bool) -> Seq<T>
    decreases s.len(),
{
    if s.len() == 0 {
        s
    } else {
        insert_sorted(stable_sort(s.drop_last(), le), s.last(), le)
    }
}

pub proof fn lemma_insert_pos<T>(s: Seq<T>, x: T, le: spec_fn(T, T) -> bool)
    ensures
        0 <= insert_pos(s, x, le) <= s.len(),
        forall|i: int| 0 <= i < insert_pos(s, x, le) ==> #[trigger] le(s[i], x),
        insert_pos(s, x, le) < s.len() ==> !le(s[insert_pos(s, x, le)], x),
    decreases s.len(),
{
    if s.len() > 0 && le(s[0], x) {
        lemma_insert_pos(s.drop_first(), x, le);
        assert forall|i: int| 0 <= i < insert_pos(s, x, le) implies #[trigger] le(s[i], x) by {
            if i > 0 {
                assert(s[i] == s.drop_first()[i - 1]);
            }
        }
    }
}

/// Sorting keeps exactly the elements of the input.
pub proof fn lemma_stable_sort_perm<T>(s: Seq<T>, le: spec_fn(T, T) -> bool)
    ensures
        stable_sort(s, le).to_multiset() == s.to_multiset(),
        stable_sort(s, le).len() == s.len(),
    decreases s.len(),
{
    if s.len() > 0 {
        let r = stable_sort(s.drop_last(), le);
        lemma_stable_sort_perm(s.drop_last(), le);
        lemma_insert_pos(r, s.last(), le);
        vstd::seq_lib::to_multiset_insert(r, insert_pos(r, s.last(), le), s.last());
        assert(s =~= s.drop_last().push(s.last()));
        vstd::seq_lib::to_multiset_build(s.drop_last(), s.last());
    }
}

/// Sorting by a total preorder yields a sorted sequence.
pub proof fn lemma_stable_sort_sorted<T>(s: Seq<T>, le: spec_fn(T, T) -> bool)
    requires
        transitive(le),
        strongly_connected(le),
    ensures
        sorted_by(stable_sort(s, le), le),
    decreases s.len(),
{
    if s.len() > 0 {
        let r = stable_sort(s.drop_last(), le);
        let x = s.last();
        lemma_stable_sort_sorted(s.drop_last(), le);
        lemma_stable_sort_perm(s.drop_last(), le);
        lemma_insert_pos(r, x, le);
        let p = insert_pos(r, x, le);
        let out = r.insert(p, x);
        assert forall|i: int, j: int| 0 <= i < j < out.len() implies #[trigger] le(
            out[i],
            out[j],
        ) by {
            if j < p {
                assert(out[i] == r[i] && out[j] == r[j]);
            } else if j == p {
                assert(out[i] == r[i]);
            } else if i == p {
                assert(out[j] == r[j - 1]);
                assert(le(x, r[p]));
                if j - 1 > p {
                    assert(le(r[p], r[j - 1]));
                }
            } else if i < p {
                assert(out[i] == r[i] && out[j] == r[j - 1]);
            } else {
                assert(out[i] == r[i - 1] && out[j] == r[j - 1]);
            }
        }
    }
}

/// Sorting commutes with a map that carries the relation over.
pub proof fn lemma_stable_sort_map<A, B>(
    s: Seq<A>,
    f: spec_fn(A) -> B,
    le_a: spec_fn(A, A) -> bool,
    le_b: spec_fn(B, B) -> bool,
)
    requires
        forall|x: A, y: A| #[trigger] le_a(x, y) == le_b(f(x), f(y)),
    ensures
        stable_sort(s.map_values(f), le_b) == stable_sort(s, le_a).map_values(f),
    decreases s.len(),
{
    if s.len() > 0 {
        let r = stable_sort(s.drop_last(), le_a);
        assert(s.map_values(f).drop_last() =~= s.drop_last().map_values(f));
        lemma_stable_sort_map(s.drop_last(), f, le_a, le_b);
        lemma_insert_pos_map(r, s.last(), f, le_a, le_b);
        lemma_insert_pos(r, s.last(), le_a);
        assert(r.insert(insert_pos(r, s.last(), le_a), s.last()).map_values(f) =~= r.map_values(
            f,
        ).insert(insert_pos(r, s.last(), le_a), f(s.last())));
    }
}

proof fn lemma_insert_pos_map<A, B>(
    s: Seq<A>,
    x: A,
    f: spec_fn(A) -> B,
    le_a: spec_fn(A, A) -> bool,
    le_b: spec_fn(B, B) -> bool,
)
    requires
        forall|x: A, y: A| #[trigger] le_a(x, y) == le_b(f(x), f(y)),
    ensures
        insert_pos(s.map_values(f), f(x), le_b) == insert_pos(s, x, le_a),
    decreases s.len(),
{
    if s.len() > 0 {
        assert(s.map_values(f).drop_first() =~= s.drop_first().map_values(f));
        assert(le_a(s[0], x) == le_b(f(s[0]), f(x)));
        lemma_insert_pos_map(s.drop_first(), x, f, le_a, le_b);
    }
}

/// Sorts `v` stably by the comparison `leq`, which decides `le`.
pub fn sort_by_le<T, F: Fn(&T, &T) -> bool>(v: Vec<T>, leq: F, Ghost(le): Ghost<
    spec_fn(T, T) -> bool,
>) -> (r: Vec<T>)
    requires
        forall|a: &T, b: &T| #[trigger] leq.requires((a, b)),
        forall|a: &T, b: &T, o: bool| leq.ensures((a, b), o) ==> o == le(*a, *b),
    ensures
        r@ == stable_sort(v@, le),
{
    let ghost orig = v@;
    let n = v.len();
    let mut rest = v;
    let mut out: Vec<T> = Vec::new();
    let mut k: usize = 0;
    assert(orig.take(0) =~= Seq::<T>::empty());
    while rest.len() > 0
        invariant
            k <= orig.len(),
            n == orig.len(),
            rest@ == orig.skip(k as int),
            out@ == stable_sort(orig.take(k as int), le),
            forall|a: &T, b: &T| #[trigger] leq.requires((a, b)),
            forall|a: &T, b: &T, o: bool| leq.ensures((a, b), o) ==> o == le(*a, *b),
        decreases rest.len(),
    {
        let x = rest.remove(0);
        assert(orig.take(k + 1).drop_last() =~= orig.take(k as int));
        assert(orig.take(k + 1).last() == x);
        let mut p: usize = 0;
        assert(out@.skip(0) =~= out@);
        while p < out.len() && leq(&out[p], &x)
            invariant
                p <= out@.len(),
                insert_pos(out@, x, le) == p + insert_pos(out@.skip(p as int), x, le),
                forall|a: &T, b: &T| #[trigger] leq.requires((a, b)),
                forall|a: &T, b: &T, o: bool| leq.ensures((a, b), o) ==> o == le(*a, *b),
            decreases out.len() - p,
        {
            assert(out@.skip(p as int)[0] == out@[p as int]);
            assert(out@.skip(p as int).drop_first() =~= out@.skip(p + 1));
            p += 1;
        }
        proof {
            if p < out@.len() {
                assert(out@.skip(p as int)[0] == out@[p as int]);
            }
        }
        out.insert(p, x);
        k += 1;
        assert(rest@ =~= orig.skip(k as int));
    }
    assert(orig.take(k as int) =~= orig);
    out
}

} // verus!
