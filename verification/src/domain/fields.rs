//! The field table of a bibliography entry: a map from field names to
//! values that remembers insertion order.
use vstd::prelude::*;

verus! {

/// The abstract contents of a field table: `(name, value)` pairs in the
/// order in which the names were first inserted.
pub open spec fn pairs_view(v: Seq<(String, String)>) -> Seq<(Seq<char>, Seq<char>)> {
    v.map_values(|p: (String, String)| (p.0@, p.1@))
}

/// The first position at or after `i` where the name `k` stands.
pub open spec fn key_index_from(ps: Seq<(Seq<char>, Seq<char>)>, k: Seq<char>, i: int) -> Option<
    int,
>
    decreases ps.len() - i,
{
    if i < 0 || i >= ps.len() {
        None
    } else if ps[i].0 == k {
        Some(i)
    } else {
        key_index_from(ps, k, i + 1)
    }
}

/// The position of the name `k`, if present.
pub open spec fn key_index(ps: Seq<(Seq<char>, Seq<char>)>, k: Seq<char>) -> Option<int> {
    key_index_from(ps, k, 0)
}

/// The value stored under the name `k`, if any.
pub open spec fn field_lookup(ps: Seq<(Seq<char>, Seq<char>)>, k: Seq<char>) -> Option<Seq<char>> {
    match key_index(ps, k) {
        Some(i) => Some(ps[i].1),
        None => None,
    }
}

/// The table after storing `v` under `k`: an existing name keeps its place,
/// a new one goes last.
pub open spec fn field_insert(ps: Seq<(Seq<char>, Seq<char>)>, k: Seq<char>, v: Seq<char>) -> Seq<
    (Seq<char>, Seq<char>),
> {
    match key_index(ps, k) {
        Some(i) => ps.update(i, (k, v)),
        None => ps.push((k, v)),
    }
}

/// No name occurs twice.
pub open spec fn keys_unique(ps: Seq<(Seq<char>, Seq<char>)>) -> bool {
    forall|i: int, j: int| 0 <= i < j < ps.len() ==> ps[i].0 != ps[j].0
}

pub proof fn lemma_key_index_from(ps: Seq<(Seq<char>, Seq<char>)>, k: Seq<char>, i: int)
    requires
        0 <= i,
    ensures
        key_index_from(ps, k, i) matches Some(j) ==> i <= j < ps.len() && ps[j].0 == k && (forall|
            m: int,
        | i <= m < j ==> ps[m].0 != k),
        key_index_from(ps, k, i) is None ==> (forall|m: int| i <= m < ps.len() ==> ps[m].0 != k),
    decreases ps.len() - i,
{
    if i < ps.len() && ps[i].0 != k {
        lemma_key_index_from(ps, k, i + 1);
    }
}

/// Lookup after insertion gives back the inserted value, and leaves the
/// other names untouched.
pub proof fn lemma_insert_lookup(
    ps: Seq<(Seq<char>, Seq<char>)>,
    k: Seq<char>,
    v: Seq<char>,
    q: Seq<char>,
)
    requires
        keys_unique(ps),
    ensures
        keys_unique(field_insert(ps, k, v)),
        field_lookup(field_insert(ps, k, v), q) == if q == k {
            Some(v)
        } else {
            field_lookup(ps, q)
        },
{
    let ns = field_insert(ps, k, v);
    lemma_key_index_from(ps, k, 0);
    lemma_key_index_from(ps, q, 0);
    lemma_key_index_from(ns, q, 0);
    match key_index(ps, k) {
        Some(i) => {
            assert(ns == ps.update(i, (k, v)));
            if q == k {
                assert(ns[i].0 == q);
            } else {
                match key_index(ps, q) {
                    Some(j) => {
                        assert(ns[j].0 == q);
                    },
                    None => {},
                }
            }
        },
        None => {
            assert(ns == ps.push((k, v)));
            if q == k {
                assert(ns[ps.len() as int].0 == q);
            } else {
                match key_index(ps, q) {
                    Some(j) => {
                        assert(ns[j].0 == q);
                    },
                    None => {},
                }
            }
        },
    }
}

/// A field table. The names are kept unique; lookups are by exact name.
#[derive(Debug, Clone, PartialEq, Eq, Default)]
pub struct FieldMap {
    pairs: Vec<(String, String)>,
}

impl View for FieldMap {
    type V = Seq<(Seq<char>, Seq<char>)>;

    closed spec fn view(&self) -> Seq<(Seq<char>, Seq<char>)> {
        pairs_view(self.pairs@)
    }
}

impl FieldMap {
    /// The table's internal invariant: every name occurs once.
    pub open spec fn wf(&self) -> bool {
        keys_unique(self@)
    }

    /// An empty table.
    pub fn new() -> (r: FieldMap)
        ensures
            r@ == Seq::<(Seq<char>, Seq<char>)>::empty(),
            r.wf(),
    {
        let r = FieldMap { pairs: Vec::new() };
        assert(r@ =~= Seq::<(Seq<char>, Seq<char>)>::empty());
        r
    }

    /// A table holding `pairs`, whose names are distinct.
    pub fn from_pairs(pairs: Vec<(String, String)>) -> (r: FieldMap)
        requires
            keys_unique(pairs_view(pairs@)),
        ensures
            r@ == pairs_view(pairs@),
            r.wf(),
    {
        FieldMap { pairs }
    }

    /// The number of fields.
    pub fn len(&self) -> (r: usize)
        ensures
            r == self@.len(),
    {
        self.pairs.len()
    }

    /// The name of the `i`-th field in insertion order.
    pub fn key_at(&self, i: usize) -> (r: &String)
        requires
            i < self@.len(),
        ensures
            r@ == self@[i as int].0,
    {
        &self.pairs[i].0
    }

    /// The value of the `i`-th field in insertion order.
    pub fn value_at(&self, i: usize) -> (r: &String)
        requires
            i < self@.len(),
        ensures
            r@ == self@[i as int].1,
    {
        &self.pairs[i].1
    }

    /// A copy of the `(name, value)` pairs in insertion order.
    pub fn to_pairs(&self) -> (r: Vec<(String, String)>)
        ensures
            pairs_view(r@) == self@,
    {
        let mut out: Vec<(String, String)> = Vec::new();
        let mut i: usize = 0;
        while i < self.pairs.len()
            invariant
                i <= self.pairs@.len(),
                out@.len() == i,
                forall|j: int|
                    0 <= j < i ==> (#[trigger] out@[j]).0@ == self.pairs@[j].0@ && out@[j].1@
                        == self.pairs@[j].1@,
            decreases self.pairs.len() - i,
        {
            let k = self.pairs[i].0.clone();
            let v = self.pairs[i].1.clone();
            out.push((k, v));
            i += 1;
        }
        assert(pairs_view(out@) =~= self@);
        out
    }

    /// The position of the name `key`.
    pub fn position(&self, key: &String) -> (r: Option<usize>)
        ensures
            r matches Some(i) ==> key_index(self@, key@) == Some(i as int) && i < self@.len()
                && self@[i as int].0 == key@,
            r is None ==> key_index(self@, key@) is None,
    {
        let mut i: usize = 0;
        while i < self.pairs.len()
            invariant
                i <= self.pairs@.len(),
                key_index(self@, key@) == key_index_from(self@, key@, i as int),
            decreases self.pairs.len() - i,
        {
            if self.pairs[i].0 == *key {
                assert(self@[i as int].0 == key@);
                return Some(i);
            }
            i += 1;
        }
        None
    }

    /// The value stored under `key` (`HashMap::get`).
    pub fn get(&self, key: &String) -> (r: Option<&String>)
        ensures
            r matches Some(v) ==> field_lookup(self@, key@) == Some(v@),
            r is None ==> field_lookup(self@, key@) is None,
    {
        match self.position(key) {
            Some(i) => Some(&self.pairs[i].1),
            None => None,
        }
    }

    /// Stores `value` under `key`, replacing an earlier value
    /// (`HashMap::insert`).
    pub fn insert(&mut self, key: String, value: String)
        requires
            old(self).wf(),
        ensures
            final(self)@ == field_insert(old(self)@, key@, value@),
            final(self).wf(),
    {
        proof {
            lemma_insert_lookup(self@, key@, value@, key@);
        }
        match self.position(&key) {
            Some(i) => {
                self.pairs.set(i, (key, value));
            },
            None => {
                self.pairs.push((key, value));
            },
        }
        assert(self@ =~= field_insert(old(self)@, key@, value@));
    }
}

} // verus!
