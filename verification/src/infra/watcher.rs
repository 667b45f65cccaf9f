//! Debouncing file-change notifications: a burst of changes to one file is
//! reported once, when the file has been quiet for a while.
use vstd::prelude::*;

verus! {

/// How long a file must stay unchanged before its change is reported, in
/// milliseconds.
pub const DEBOUNCE_MS: u64 = 200;

/// Watches bibliography files for changes.
pub struct FileWatcher;

/// The changed files waiting to be reported, each with the moment (in
/// milliseconds) from which it may be.
pub struct Debouncer {
    pending: Vec<(String, u64)>,
}

/// The abstract form of the waiting files.
pub open spec fn pending_view(v: Seq<(String, u64)>) -> Seq<(Seq<char>, u64)> {
    v.map_values(|p: (String, u64)| (p.0@, p.1))
}

/// No file waits twice.
pub open spec fn distinct_paths(ps: Seq<(Seq<char>, u64)>) -> bool {
    forall|i: int, j: int| 0 <= i < j < ps.len() ==> ps[i].0 != ps[j].0
}

/// The position of the file `p` among the waiting ones.
pub open spec fn path_pos(ps: Seq<(Seq<char>, u64)>, p: Seq<char>) -> Option<int>
    decreases ps.len(),
{
    if ps.len() == 0 {
        None
    } else if ps.last().0 == p {
        Some(ps.len() - 1)
    } else {
        path_pos(ps.drop_last(), p)
    }
}

/// `now + DEBOUNCE_MS`, or the largest moment when that does not fit.
pub open spec fn deadline_after(now: u64) -> u64 {
    if now + DEBOUNCE_MS > u64::MAX {
        u64::MAX
    } else {
        (now + DEBOUNCE_MS) as u64
    }
}

/// The waiting files after a change of `p` at the moment `now`: its
/// deadline moves to `now` plus the quiet period; a new file joins the end.
pub open spec fn record_spec(ps: Seq<(Seq<char>, u64)>, p: Seq<char>, now: u64) -> Seq<
    (Seq<char>, u64),
> {
    match path_pos(ps, p) {
        Some(i) => ps.update(i, (p, deadline_after(now))),
        None => ps.push((p, deadline_after(now))),
    }
}

/// The files of `ps` whose deadline has come by `now`, in order.
pub open spec fn ready_spec(ps: Seq<(Seq<char>, u64)>, now: u64) -> Seq<Seq<char>>
    decreases ps.len(),
{
    if ps.len() == 0 {
        Seq::empty()
    } else {
        ready_spec(ps.drop_last(), now) + if ps.last().1 <= now {
            seq![ps.last().0]
        } else {
            Seq::empty()
        }
    }
}

/// The files of `ps` still waiting after `now`, in order.
pub open spec fn waiting_spec(ps: Seq<(Seq<char>, u64)>, now: u64) -> Seq<(Seq<char>, u64)>
    decreases ps.len(),
{
    if ps.len() == 0 {
        Seq::empty()
    } else {
        waiting_spec(ps.drop_last(), now) + if ps.last().1 <= now {
            Seq::empty()
        } else {
            seq![ps.last()]
        }
    }
}

/// The earliest deadline in `ps`.
pub open spec fn earliest(ps: Seq<(Seq<char>, u64)>) -> Option<u64>
    decreases ps.len(),
{
    if ps.len() == 0 {
        None
    } else {
        match earliest(ps.drop_last()) {
            None => Some(ps.last().1),
            Some(m) => Some(if ps.last().1 < m {
                ps.last().1
            } else {
                m
            }),
        }
    }
}

proof fn lemma_path_pos(ps: Seq<(Seq<char>, u64)>, p: Seq<char>)
    ensures
        path_pos(ps, p) matches Some(i) ==> 0 <= i < ps.len() && ps[i].0 == p,
        path_pos(ps, p) is None ==> forall|i: int| 0 <= i < ps.len() ==> (#[trigger] ps[i]).0 != p,
    decreases ps.len(),
{
    if ps.len() > 0 && ps.last().0 != p {
        lemma_path_pos(ps.drop_last(), p);
        assert forall|i: int| 0 <= i < ps.len() - 1 implies (#[trigger] ps[i]).0 == ps.drop_last()[i].0 by {}
    }
}

/// Keeping only some of the waiting files keeps them distinct.
proof fn lemma_waiting_distinct(ps: Seq<(Seq<char>, u64)>, now: u64)
    requires
        distinct_paths(ps),
    ensures
        distinct_paths(waiting_spec(ps, now)),
        forall|x: (Seq<char>, u64)| waiting_spec(ps, now).contains(x) ==> ps.contains(x),
    decreases ps.len(),
{
    if ps.len() > 0 {
        let init = ps.drop_last();
        assert(distinct_paths(init)) by {
            assert forall|i: int, j: int| 0 <= i < j < init.len() implies init[i].0 != init[j].0 by {
                assert(init[i] == ps[i] && init[j] == ps[j]);
            }
        }
        lemma_waiting_distinct(init, now);
        let w = waiting_spec(init, now);
        assert forall|x: (Seq<char>, u64)| waiting_spec(ps, now).contains(x) implies ps.contains(x) by {
            let k = choose|k: int| 0 <= k < waiting_spec(ps, now).len() && waiting_spec(ps, now)[k] == x;
            if k < w.len() {
                assert(w[k] == x);
                assert(w.contains(x));
                assert(init.contains(x));
                let m = choose|m: int| 0 <= m < init.len() && init[m] == x;
                assert(ps[m] == init[m]);
            } else {
                assert(ps[ps.len() - 1] == x);
            }
        }
        if ps.last().1 > now {
            let n = waiting_spec(ps, now);
            assert forall|i: int, j: int| 0 <= i < j < n.len() implies n[i].0 != n[j].0 by {
                if j == w.len() {
                    assert(n[i] == w[i]);
                    assert(w.contains(w[i]));
                    assert(init.contains(w[i]));
                    let m = choose|m: int| 0 <= m < init.len() && init[m] == w[i];
                    assert(ps[m] == init[m]);
                    assert(n[j] == ps.last());
                    assert(ps[m].0 != ps[ps.len() - 1].0);
                } else {
                    assert(n[i] == w[i] && n[j] == w[j]);
                }
            }
        }
    }
}

impl Debouncer {
    /// The waiting files, each with its deadline.
    pub closed spec fn pending(&self) -> Seq<(Seq<char>, u64)> {
        pending_view(self.pending@)
    }

    /// The debouncer's invariant: no file waits twice.
    pub open spec fn wf(&self) -> bool {
        distinct_paths(self.pending())
    }

    /// A debouncer with nothing waiting.
    pub fn new() -> (r: Debouncer)
        ensures
            r.wf(),
            r.pending() == Seq::<(Seq<char>, u64)>::empty(),
    {
        let r = Debouncer { pending: Vec::new() };
        assert(r.pending() =~= Seq::<(Seq<char>, u64)>::empty());
        r
    }

    /// Whether nothing is waiting.
    pub fn is_empty(&self) -> (r: bool)
        ensures
            r == (self.pending().len() == 0),
    {
        self.pending.len() == 0
    }

    /// Notes a change of `path` at the moment `now` (milliseconds).
    pub fn record(&mut self, path: String, now: u64)
        requires
            old(self).wf(),
        ensures
            final(self).wf(),
            final(self).pending() == record_spec(old(self).pending(), path@, now),
    {
        let ghost ps = self.pending();
        proof {
            lemma_path_pos(ps, path@);
        }
        let deadline = now.saturating_add(DEBOUNCE_MS);
        assert(deadline == deadline_after(now));
        let mut i: usize = self.pending.len();
        assert(ps.take(i as int) =~= ps);
        while i > 0
            invariant
                i <= self.pending@.len(),
                ps == pending_view(self.pending@),
                ps == old(self).pending(),
                path_pos(ps, path@) == path_pos(ps.take(i as int), path@),
                distinct_paths(ps),
                deadline == deadline_after(now),
            decreases i,
        {
            assert(ps.take(i as int).last() == ps[i - 1]);
            assert(ps.take(i as int).drop_last() =~= ps.take(i - 1));
            if self.pending[i - 1].0 == path {
                let ghost pv = path@;
                assert(path_pos(ps, pv) == Some((i - 1) as int));
                self.pending.set(i - 1, (path, deadline));
                assert(self.pending() =~= ps.update(i - 1, (pv, deadline_after(now))));
                proof {
                    let n = self.pending();
                    assert forall|a: int, b: int| 0 <= a < b < n.len() implies n[a].0 != n[b].0 by {
                        assert(ps[a].0 != ps[b].0);
                        assert(n[a].0 == ps[a].0);
                        assert(n[b].0 == ps[b].0);
                    }
                }
                return;
            }
            i -= 1;
        }
        assert(ps.take(0) =~= Seq::<(Seq<char>, u64)>::empty());
        self.pending.push((path, deadline));
        assert(self.pending() =~= ps.push((path@, deadline_after(now))));
        proof {
            let n = self.pending();
            assert forall|a: int, b: int| 0 <= a < b < n.len() implies n[a].0 != n[b].0 by {
                if b == ps.len() {
                    assert(ps[a].0 != path@);
                } else {
                    assert(ps[a].0 != ps[b].0);
                }
            }
        }
    }

    /// The earliest deadline among the waiting files.
    pub fn next_deadline(&self) -> (r: Option<u64>)
        ensures
            r == earliest(self.pending()),
    {
        let ghost ps = self.pending();
        let mut best: Option<u64> = None;
        let mut i: usize = 0;
        while i < self.pending.len()
            invariant
                i <= self.pending@.len(),
                ps == pending_view(self.pending@),
                best == earliest(ps.take(i as int)),
            decreases self.pending.len() - i,
        {
            assert(ps.take(i + 1).drop_last() =~= ps.take(i as int));
            let d = self.pending[i].1;
            best = match best {
                None => Some(d),
                Some(m) => Some(if d < m {
                    d
                } else {
                    m
                }),
            };
            i += 1;
        }
        assert(ps.take(i as int) =~= ps);
        best
    }

    /// Takes every waiting file, in order.
    pub fn take_all(&mut self) -> (r: Vec<String>)
        ensures
            final(self).wf(),
            final(self).pending() == Seq::<(Seq<char>, u64)>::empty(),
            r@.map_values(|s: String| s@) == old(self).pending().map_values(
                |p: (Seq<char>, u64)| p.0,
            ),
    {
        let mut taken: Vec<(String, u64)> = Vec::new();
        std::mem::swap(&mut taken, &mut self.pending);
        let ghost tv = pending_view(taken@);
        let mut out: Vec<String> = Vec::new();
        let mut rest = taken;
        let ghost orig = rest@;
        let mut k: usize = 0;
        let n = rest.len();
        while rest.len() > 0
            invariant
                k <= n,
                n == orig.len(),
                rest@ == orig.skip(k as int),
                tv == pending_view(orig),
                out@.map_values(|s: String| s@) == tv.take(k as int).map_values(
                    |p: (Seq<char>, u64)| p.0,
                ),
            decreases rest.len(),
        {
            let (p, _d) = rest.remove(0);
            let ghost prev = out@.map_values(|s: String| s@);
            out.push(p);
            assert(out@.map_values(|s: String| s@) =~= prev.push(p@));
            k += 1;
            assert(rest@ =~= orig.skip(k as int));
            assert(tv.take(k as int).map_values(|p: (Seq<char>, u64)| p.0) =~= tv.take(k - 1).map_values(
                |p: (Seq<char>, u64)| p.0,
            ).push(tv[k - 1].0));
        }
        assert(tv.take(k as int) =~= tv);
        assert(self.pending() =~= Seq::<(Seq<char>, u64)>::empty());
        out
    }

    /// Takes the waiting files whose deadline has come by `now`, in order;
    /// the others keep waiting.
    pub fn take_ready(&mut self, now: u64) -> (r: Vec<String>)
        requires
            old(self).wf(),
        ensures
            final(self).wf(),
            final(self).pending() == waiting_spec(old(self).pending(), now),
            r@.map_values(|s: String| s@) == ready_spec(old(self).pending(), now),
    {
        let ghost ps = self.pending();
        let mut taken: Vec<(String, u64)> = Vec::new();
        std::mem::swap(&mut taken, &mut self.pending);
        let mut rest = taken;
        let ghost orig = rest@;
        let n = rest.len();
        let mut k: usize = 0;
        let mut out: Vec<String> = Vec::new();
        assert(ps.take(0) =~= Seq::<(Seq<char>, u64)>::empty());
        assert(out@.map_values(|s: String| s@) =~= Seq::<Seq<char>>::empty());
        assert(self.pending() =~= Seq::<(Seq<char>, u64)>::empty());
        while rest.len() > 0
            invariant
                k <= n,
                n == orig.len(),
                rest@ == orig.skip(k as int),
                ps == pending_view(orig),
                out@.map_values(|s: String| s@) == ready_spec(ps.take(k as int), now),
                self.pending() == waiting_spec(ps.take(k as int), now),
            decreases rest.len(),
        {
            let (p, d) = rest.remove(0);
            assert(ps.take(k + 1).drop_last() =~= ps.take(k as int));
            assert(ps.take(k + 1).last() == (p@, d));
            if d <= now {
                let ghost prev = out@.map_values(|s: String| s@);
                out.push(p);
                assert(out@.map_values(|s: String| s@) =~= prev.push(ps[k as int].0));
                assert(self.pending() =~= waiting_spec(ps.take(k + 1), now));
            } else {
                let ghost prev = self.pending();
                self.pending.push((p, d));
                assert(self.pending() =~= prev.push((p@, d)));
                assert(out@.map_values(|s: String| s@) =~= ready_spec(ps.take(k + 1), now));
            }
            k += 1;
            assert(rest@ =~= orig.skip(k as int));
        }
        assert(ps.take(k as int) =~= ps);
        proof {
            lemma_waiting_distinct(ps, now);
        }
        out
    }
}

/// A file that changes again and again is still waiting once: recording a
/// change of a waiting file keeps the number of waiting files.
pub proof fn lemma_record_coalesces(ps: Seq<(Seq<char>, u64)>, p: Seq<char>, now: u64)
    requires
        distinct_paths(ps),
    ensures
        record_spec(ps, p, now).len() == ps.len() + if path_pos(ps, p) is Some {
            0int
        } else {
            1int
        },
        record_spec(record_spec(ps, p, now), p, now).len() == record_spec(ps, p, now).len(),
{
    lemma_path_pos(ps, p);
    let r = record_spec(ps, p, now);
    lemma_path_pos(r, p);
    if path_pos(ps, p) is None {
        assert(r[ps.len() as int].0 == p);
    } else {
        let i = path_pos(ps, p)->Some_0;
        assert(r[i].0 == p);
    }
}

} // verus!
