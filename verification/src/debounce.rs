//! The debouncer of one worker: per path, the time of the most recent
//! accepted observation. An observation is accepted when no earlier
//! observation of the same path was accepted within the debounce window
//! ending now; the first observation of a path is always accepted.

use vstd::prelude::*;
use crate::assoc::{map_of_pairs, lemma_map_of_pairs_contains, lemma_map_of_pairs_at};

verus! {

/// `a - b`, floored at zero, as elapsed time between two clock readings is
/// measured.
pub open spec fn sat_sub(a: u64, b: u64) -> u64 {
    if a >= b {
        (a - b) as u64
    } else {
        0
    }
}

/// Whether an observation of `path` at `now` passes the debounce: no entry
/// for the path yet, or at least `window` elapsed since the recorded one.
pub open spec fn accepts(m: Map<Seq<char>, u64>, window: u64, path: Seq<char>, now: u64) -> bool {
    !m.contains_key(path) || sat_sub(now, m[path]) >= window
}

/// A debounce window of zero admits every observation.
pub proof fn lemma_zero_window_admits(m: Map<Seq<char>, u64>, path: Seq<char>, now: u64)
    ensures
        accepts(m, 0, path, now),
{
}

/// The times, in observation order, at which observations of `path` are
/// accepted when the sequence is decided starting from table `m`.
pub open spec fn accepted_times(
    m: Map<Seq<char>, u64>,
    window: u64,
    obs: Seq<(Seq<char>, u64)>,
    path: Seq<char>,
) -> Seq<u64>
    decreases obs.len(),
{
    if obs.len() == 0 {
        Seq::empty()
    } else {
        let acc = accepts(m, window, obs[0].0, obs[0].1);
        let m1 = if acc {
            m.insert(obs[0].0, obs[0].1)
        } else {
            m
        };
        let rest = accepted_times(m1, window, obs.drop_first(), path);
        if acc && obs[0].0 == path {
            seq![obs[0].1] + rest
        } else {
            rest
        }
    }
}

proof fn lemma_debounce_spacing_aux(
    m: Map<Seq<char>, u64>,
    window: u64,
    obs: Seq<(Seq<char>, u64)>,
    path: Seq<char>,
)
    requires
        forall|p: int, q: int| 0 <= p <= q < obs.len() ==> obs[p].1 <= obs[q].1,
    ensures
        ({
            let ts = accepted_times(m, window, obs, path);
            &&& forall|i: int| 0 <= i < ts.len() - 1 ==> #[trigger] ts[i + 1] >= ts[i] + window
            &&& forall|i: int| 0 <= i < ts.len() ==> exists|q: int|
                0 <= q < obs.len() && #[trigger] ts[i] == obs[q].1
            &&& (m.contains_key(path) && window > 0 && ts.len() > 0 ==> ts[0] >= m[path]
                + window)
        }),
    decreases obs.len(),
{
    let ts = accepted_times(m, window, obs, path);
    if obs.len() > 0 {
        let hd = obs[0];
        let acc = accepts(m, window, hd.0, hd.1);
        let m1 = if acc {
            m.insert(hd.0, hd.1)
        } else {
            m
        };
        let rest = obs.drop_first();
        assert forall|p: int, q: int| 0 <= p <= q < rest.len() implies rest[p].1
            <= rest[q].1 by {
            assert(rest[p] == obs[p + 1]);
            assert(rest[q] == obs[q + 1]);
        }
        lemma_debounce_spacing_aux(m1, window, rest, path);
        let tr = accepted_times(m1, window, rest, path);
        if acc && hd.0 == path {
            assert(ts =~= seq![hd.1] + tr);
            assert forall|i: int| 0 <= i < ts.len() implies exists|q: int|
                0 <= q < obs.len() && #[trigger] ts[i] == obs[q].1 by {
                if i == 0 {
                    assert(ts[0] == obs[0].1);
                } else {
                    let q = choose|q: int| 0 <= q < rest.len() && tr[i - 1] == rest[q].1;
                    assert(rest[q] == obs[q + 1]);
                    assert(ts[i] == obs[q + 1].1);
                }
            }
            assert forall|i: int| 0 <= i < ts.len() - 1 implies #[trigger] ts[i + 1] >= ts[i]
                + window by {
                if i == 0 {
                    assert(ts[0] == hd.1);
                    assert(ts[1] == tr[0]);
                    if window > 0 {
                        assert(m1.contains_key(path) && m1[path] == hd.1);
                        assert(tr[0] >= hd.1 + window);
                    } else {
                        let q = choose|q: int| 0 <= q < rest.len() && tr[0] == rest[q].1;
                        assert(rest[q] == obs[q + 1]);
                        assert(obs[0].1 <= obs[q + 1].1);
                        assert(tr[0] >= hd.1);
                    }
                } else {
                    assert(ts[i] == tr[i - 1]);
                    assert(ts[i + 1] == tr[i]);
                    assert(tr[(i - 1) + 1] >= tr[i - 1] + window);
                }
            }
            if m.contains_key(path) && window > 0 && ts.len() > 0 {
                assert(sat_sub(hd.1, m[path]) >= window);
            }
        } else {
            assert(ts =~= tr);
            assert forall|i: int| 0 <= i < ts.len() implies exists|q: int|
                0 <= q < obs.len() && #[trigger] ts[i] == obs[q].1 by {
                let q = choose|q: int| 0 <= q < rest.len() && tr[i] == rest[q].1;
                assert(rest[q] == obs[q + 1]);
                assert(ts[i] == obs[q + 1].1);
            }
            if m.contains_key(path) && window > 0 && ts.len() > 0 {
                if hd.0 == path {
                    assert(m1 == m);
                    assert(tr[0] >= m[path] + window);
                } else {
                    assert(m1.contains_key(path) && m1[path] == m[path]);
                    assert(tr[0] >= m1[path] + window);
                }
            }
        }
    }
}

/// Law: for every path and every debounce window, at most one observation of
/// the path is accepted in any interval of the window's length. Starting
/// from a fresh table, successive accepted times for a path are at least the
/// window apart, provided observation times do not run backwards. An alert
/// is only ever dispatched for an accepted observation, so the same bound
/// holds of alerts.
pub proof fn lemma_debounce_window_spacing(
    window: u64,
    obs: Seq<(Seq<char>, u64)>,
    path: Seq<char>,
    i: int,
)
    requires
        forall|p: int, q: int| 0 <= p <= q < obs.len() ==> obs[p].1 <= obs[q].1,
        0 <= i,
        i + 1 < accepted_times(Map::empty(), window, obs, path).len(),
    ensures
        accepted_times(Map::empty(), window, obs, path)[i + 1] >= accepted_times(
            Map::empty(),
            window,
            obs,
            path,
        )[i] + window,
{
    lemma_debounce_spacing_aux(Map::empty(), window, obs, path);
}

/// Per-worker table of last accepted observation times.
pub struct Debouncer {
    window_ms: u64,
    last: Vec<(String, u64)>,
}

impl View for Debouncer {
    type V = Map<Seq<char>, u64>;

    open spec fn view(&self) -> Map<Seq<char>, u64> {
        map_of_pairs(self.entries_view())
    }
}

impl Debouncer {
    pub closed spec fn entries_view(&self) -> Seq<(Seq<char>, u64)> {
        self.last@.map_values(|p: (String, u64)| (p.0@, p.1))
    }

    /// The debounce window, in milliseconds.
    pub closed spec fn window(&self) -> u64 {
        self.window_ms
    }

    /// No path occurs twice in the table.
    pub closed spec fn wf(&self) -> bool {
        forall|i: int, j: int| 0 <= i < j < self.last@.len() ==> self.last@[i].0@
            != self.last@[j].0@
    }

    pub fn new(window_ms: u64) -> (d: Debouncer)
        ensures
            d.wf(),
            d.window() == window_ms,
            d@ =~= Map::<Seq<char>, u64>::empty(),
    {
        Debouncer { window_ms, last: Vec::new() }
    }

    pub fn window_ms(&self) -> (w: u64)
        ensures
            w == self.window(),
    {
        self.window_ms
    }

    fn index_of(&self, path: &String) -> (r: Option<usize>)
        ensures
            match r {
                Some(k) => k < self.entries_view().len() && self.entries_view()[k as int].0
                    == path@,
                None => forall|i: int| 0 <= i < self.entries_view().len()
                    ==> self.entries_view()[i].0 != path@,
            },
    {
        let mut i: usize = 0;
        while i < self.last.len()
            invariant
                i <= self.last@.len(),
                forall|j: int| 0 <= j < i ==> self.last@[j].0@ != path@,
            decreases self.last@.len() - i,
        {
            if self.last[i].0.eq(path) {
                return Some(i);
            }
            i = i + 1;
        }
        None
    }

    /// Decide one observation and record it when accepted: returns whether
    /// the caller should go on (digest, compare, possibly alert), and on
    /// acceptance remembers `now` as the path's last accepted time.
    pub fn should_accept(&mut self, path: &String, now: u64) -> (r: bool)
        requires
            old(self).wf(),
        ensures
            final(self).wf(),
            final(self).window() == old(self).window(),
            r == accepts(old(self)@, old(self).window(), path@, now),
            r ==> final(self)@ =~= old(self)@.insert(path@, now),
            !r ==> final(self)@ =~= old(self)@,
    {
        proof {
            lemma_map_of_pairs_contains(self.entries_view(), path@);
        }
        let found = self.index_of(path);
        let ghost old_es = self.entries_view();
        proof {
            assert forall|q: int| 0 <= q < old_es.len() implies #[trigger] old_es[q] == (
                self.last@[q].0@,
                self.last@[q].1,
            ) by {}
            assert forall|p: int, q: int| 0 <= p < q < old_es.len() implies old_es[p].0
                != old_es[q].0 by {
                assert(self.last@[p].0@ != self.last@[q].0@);
            }
        }
        match found {
            Some(k) => {
                proof {
                    lemma_map_of_pairs_at(old_es, k as int);
                }
                let prev = self.last[k].1;
                let elapsed = if now >= prev {
                    now - prev
                } else {
                    0
                };
                if elapsed < self.window_ms {
                    return false;
                }
                let new_pair = (path.clone(), now);
                let ghost np = new_pair;
                self.last.remove(k);
                self.last.insert(k, new_pair);
                proof {
                    assert(self.last@ =~= old(self).last@.update(k as int, np));
                    let es = self.entries_view();
                    assert forall|q: int| 0 <= q < es.len() implies #[trigger] es[q] == (
                        self.last@[q].0@,
                        self.last@[q].1,
                    ) by {}
                    assert(es =~= old_es.update(k as int, (path@, now)));
                    assert forall|q: int| 0 <= q < self.last@.len() implies #[trigger] self.last@[q].0@
                        == old(self).last@[q].0@ by {}
                    assert(self.wf());
                    assert forall|p: int, q: int| 0 <= p < q < es.len() implies es[p].0
                        != es[q].0 by {}
                    let m1 = map_of_pairs(es);
                    let m2 = old(self)@.insert(path@, now);
                    assert forall|kk: Seq<char>| m1.contains_key(kk) == m2.contains_key(kk) by {
                        lemma_map_of_pairs_contains(es, kk);
                        lemma_map_of_pairs_contains(old_es, kk);
                        if m1.contains_key(kk) {
                            let i = choose|i: int| 0 <= i < es.len() && es[i].0 == kk;
                            assert(old_es[i].0 == kk);
                        }
                        if m2.contains_key(kk) {
                            if kk == path@ {
                                assert(es[k as int].0 == kk);
                            } else {
                                let i = choose|i: int|
                                    0 <= i < old_es.len() && old_es[i].0 == kk;
                                assert(es[i].0 == kk);
                            }
                        }
                    }
                    assert forall|kk: Seq<char>| m1.contains_key(kk) implies m1[kk] == m2[kk] by {
                        lemma_map_of_pairs_contains(es, kk);
                        let i = choose|i: int| 0 <= i < es.len() && es[i].0 == kk;
                        lemma_map_of_pairs_at(es, i);
                        if kk == path@ {
                            assert(es[k as int].0 == kk);
                            assert(i == k);
                            assert(m1[kk] == now);
                        } else {
                            assert(i != k);
                            assert(old_es[i] == es[i]);
                            lemma_map_of_pairs_at(old_es, i);
                        }
                    }
                    assert(m1 =~= m2);
                }
                true
            },
            None => {
                let new_pair = (path.clone(), now);
                let ghost np = new_pair;
                self.last.push(new_pair);
                proof {
                    assert(self.last@ =~= old(self).last@.push(np));
                    let es = self.entries_view();
                    assert forall|q: int| 0 <= q < es.len() implies #[trigger] es[q] == (
                        self.last@[q].0@,
                        self.last@[q].1,
                    ) by {}
                    assert(es =~= old_es.push((path@, now)));
                    assert forall|i: int, j: int| 0 <= i < j < self.last@.len() implies
                        self.last@[i].0@ != self.last@[j].0@ by {
                        if j == self.last@.len() - 1 {
                            assert(old_es[i].0 != path@);
                            assert(self.last@[i].0@ == old_es[i].0);
                        } else {
                            assert(old_es[i].0 != old_es[j].0);
                        }
                    }
                    assert(self.wf());
                    assert(es.drop_last() =~= old_es);
                    assert(!old(self)@.contains_key(path@));
                }
                true
            },
        }
    }
}

} // verus!
