//! The supervisor's decisions: keep the set of running job workers in
//! agreement with the configuration on disk. When the file changes, the
//! old and new snapshots are diffed into a plan of three fixed phases —
//! remove, restart, add — which the surrounding daemon loop carries out
//! (stopping, joining and spawning threads, which happen outside the
//! library).

use vstd::prelude::*;
use crate::config::{Config, strings_view, job_config_eq};

verus! {

/// Jobs present before but absent now: their workers are stopped.
pub open spec fn removed_names(old_cfg: Config, new_cfg: Config) -> Seq<Seq<char>> {
    old_cfg.names().filter(|n: Seq<char>| !new_cfg.jobs_map().contains_key(n))
}

/// Jobs present in both snapshots whose configuration is not structurally
/// equal: their workers are stopped and respawned with a fresh baseline.
pub open spec fn restarted_names(old_cfg: Config, new_cfg: Config) -> Seq<Seq<char>> {
    old_cfg.names().filter(
        |n: Seq<char>| new_cfg.jobs_map().contains_key(n) && old_cfg.jobs_map()[n]
            != new_cfg.jobs_map()[n],
    )
}

/// Jobs present only in the new snapshot: workers are spawned for them.
pub open spec fn added_names(old_cfg: Config, new_cfg: Config) -> Seq<Seq<char>> {
    new_cfg.names().filter(|n: Seq<char>| !old_cfg.jobs_map().contains_key(n))
}

/// What one reload does, in the order the phases run.
pub struct Plan {
    pub remove: Vec<String>,
    pub restart: Vec<String>,
    pub add: Vec<String>,
}

/// Diff two configuration snapshots into the reload plan. A job whose
/// configuration is unchanged appears in no phase: its worker keeps
/// running untouched.
pub fn reconcile(old_cfg: &Config, new_cfg: &Config) -> (p: Plan)
    requires
        old_cfg.wf(),
        new_cfg.wf(),
    ensures
        strings_view(p.remove@) == removed_names(*old_cfg, *new_cfg),
        strings_view(p.restart@) == restarted_names(*old_cfg, *new_cfg),
        strings_view(p.add@) == added_names(*old_cfg, *new_cfg),
{
    let ghost pred_remove = |n: Seq<char>| !new_cfg.jobs_map().contains_key(n);
    let ghost pred_restart = |n: Seq<char>| new_cfg.jobs_map().contains_key(n)
        && old_cfg.jobs_map()[n] != new_cfg.jobs_map()[n];
    let ghost pred_add = |n: Seq<char>| !old_cfg.jobs_map().contains_key(n);
    let mut remove: Vec<String> = Vec::new();
    let mut restart: Vec<String> = Vec::new();
    let mut add: Vec<String> = Vec::new();
    let mut i: usize = 0;
    proof {
        reveal(Seq::filter);
        assert(old_cfg.names().take(0).filter(pred_remove) =~= Seq::<Seq<char>>::empty());
        assert(old_cfg.names().take(0).filter(pred_restart) =~= Seq::<Seq<char>>::empty());
    }
    while i < old_cfg.job_count()
        invariant
            old_cfg.wf(),
            new_cfg.wf(),
            i <= old_cfg.names().len(),
            pred_remove == (|n: Seq<char>| !new_cfg.jobs_map().contains_key(n)),
            pred_restart == (|n: Seq<char>| new_cfg.jobs_map().contains_key(n)
                && old_cfg.jobs_map()[n] != new_cfg.jobs_map()[n]),
            strings_view(remove@) == old_cfg.names().take(i as int).filter(pred_remove),
            strings_view(restart@) == old_cfg.names().take(i as int).filter(pred_restart),
        decreases old_cfg.names().len() - i,
    {
        let name = old_cfg.name_at(i);
        let ghost nv = name@;
        let ghost pre_remove = remove@;
        let ghost pre_restart = restart@;
        match new_cfg.find_job(name) {
            None => {
                remove.push(name.clone());
            },
            Some(newj) => {
                let oldj = old_cfg.job_at(i);
                if !job_config_eq(oldj, newj) {
                    restart.push(name.clone());
                }
            },
        }
        proof {
            reveal(Seq::filter);
            let t1 = old_cfg.names().take(i + 1 as int);
            assert(t1.drop_last() =~= old_cfg.names().take(i as int));
            assert(t1.last() == nv);
            if pred_remove(nv) {
                assert(strings_view(remove@) =~= strings_view(pre_remove).push(nv));
            } else {
                assert(strings_view(remove@) =~= strings_view(pre_remove));
            }
            if pred_restart(nv) {
                assert(strings_view(restart@) =~= strings_view(pre_restart).push(nv));
            } else {
                assert(strings_view(restart@) =~= strings_view(pre_restart));
            }
        }
        i = i + 1;
    }
    proof {
        assert(old_cfg.names().take(old_cfg.names().len() as int) =~= old_cfg.names());
    }
    let mut j: usize = 0;
    proof {
        reveal(Seq::filter);
        assert(new_cfg.names().take(0).filter(pred_add) =~= Seq::<Seq<char>>::empty());
    }
    while j < new_cfg.job_count()
        invariant
            old_cfg.wf(),
            new_cfg.wf(),
            j <= new_cfg.names().len(),
            pred_add == (|n: Seq<char>| !old_cfg.jobs_map().contains_key(n)),
            strings_view(add@) == new_cfg.names().take(j as int).filter(pred_add),
        decreases new_cfg.names().len() - j,
    {
        let name = new_cfg.name_at(j);
        let ghost nv = name@;
        let ghost pre_add = add@;
        if !old_cfg.contains_job(name) {
            add.push(name.clone());
        }
        proof {
            reveal(Seq::filter);
            let t1 = new_cfg.names().take(j + 1 as int);
            assert(t1.drop_last() =~= new_cfg.names().take(j as int));
            assert(t1.last() == nv);
            if pred_add(nv) {
                assert(strings_view(add@) =~= strings_view(pre_add).push(nv));
            } else {
                assert(strings_view(add@) =~= strings_view(pre_add));
            }
        }
        j = j + 1;
    }
    proof {
        assert(new_cfg.names().take(new_cfg.names().len() as int) =~= new_cfg.names());
    }
    Plan { remove, restart, add }
}

/// The supervisor's bookkeeping: the configuration snapshot the running
/// workers were spawned from, and the names of the jobs whose worker
/// handles it holds.
pub struct Supervisor {
    snapshot: Config,
    running: Vec<String>,
}

impl Supervisor {
    pub closed spec fn snapshot_names(&self) -> Seq<Seq<char>> {
        self.snapshot.names()
    }

    pub closed spec fn snapshot_map(&self) -> Map<Seq<char>, crate::config::JobView> {
        self.snapshot.jobs_map()
    }

    pub closed spec fn running_names(&self) -> Seq<Seq<char>> {
        strings_view(self.running@)
    }

    pub closed spec fn wf(&self) -> bool {
        self.snapshot.wf() && (forall|i: int, j: int|
            0 <= i < j < self.running@.len() ==> self.running@[i]@ != self.running@[j]@)
    }

    /// Take ownership of the first configuration snapshot; no worker is
    /// recorded yet.
    pub fn new(cfg: Config) -> (s: Supervisor)
        requires
            cfg.wf(),
        ensures
            s.wf(),
            s.snapshot_names() == cfg.names(),
            s.snapshot_map() == cfg.jobs_map(),
            s.running_names() =~= Seq::<Seq<char>>::empty(),
    {
        Supervisor { snapshot: cfg, running: Vec::new() }
    }

    /// The snapshot to diff the freshly parsed file against.
    pub fn snapshot_ref(&self) -> (c: &Config)
        ensures
            c.names() == self.snapshot_names(),
            c.jobs_map() == self.snapshot_map(),
            self.wf() ==> c.wf(),
    {
        &self.snapshot
    }

    pub fn is_running(&self, name: &String) -> (r: bool)
        ensures
            r == self.running_names().contains(name@),
    {
        let mut i: usize = 0;
        while i < self.running.len()
            invariant
                i <= self.running@.len(),
                forall|j: int| 0 <= j < i ==> self.running@[j]@ != name@,
            decreases self.running@.len() - i,
        {
            if self.running[i].eq(name) {
                proof {
                    assert(strings_view(self.running@)[i as int] == name@);
                }
                return true;
            }
            i = i + 1;
        }
        proof {
            if self.running_names().contains(name@) {
                let k = choose|k: int|
                    0 <= k < self.running_names().len() && self.running_names()[k] == name@;
                assert(self.running@[k]@ == name@);
            }
        }
        false
    }

    /// A worker was spawned for `name`.
    pub fn record_started(&mut self, name: &String)
        requires
            old(self).wf(),
            !old(self).running_names().contains(name@),
        ensures
            final(self).wf(),
            final(self).running_names() =~= old(self).running_names().push(name@),
            final(self).snapshot_names() == old(self).snapshot_names(),
            final(self).snapshot_map() == old(self).snapshot_map(),
    {
        self.running.push(name.clone());
        proof {
            assert(strings_view(self.running@) =~= strings_view(old(self).running@).push(name@));
            assert forall|i: int, j: int| 0 <= i < j < self.running@.len() implies self.running@[i]@
                != self.running@[j]@ by {
                if j == self.running@.len() - 1 {
                    assert(strings_view(old(self).running@)[i] == self.running@[i]@);
                    assert(!old(self).running_names().contains(name@));
                }
            }
        }
    }

    /// The worker for `name` was stopped and joined; its handle is gone.
    pub fn record_stopped(&mut self, name: &String)
        requires
            old(self).wf(),
        ensures
            final(self).wf(),
            final(self).running_names() =~= old(self).running_names().filter(
                |n: Seq<char>| n != name@,
            ),
            final(self).snapshot_names() == old(self).snapshot_names(),
            final(self).snapshot_map() == old(self).snapshot_map(),
    {
        let ghost pred = |n: Seq<char>| n != name@;
        let mut kept: Vec<String> = Vec::new();
        let mut i: usize = 0;
        proof {
            reveal(Seq::filter);
            assert(strings_view(self.running@).take(0).filter(pred) =~= Seq::<Seq<char>>::empty());
        }
        while i < self.running.len()
            invariant
                i <= self.running@.len(),
                pred == (|n: Seq<char>| n != name@),
                strings_view(kept@) == strings_view(self.running@).take(i as int).filter(pred),
                forall|p: int, q: int| 0 <= p < q < kept@.len() ==> kept@[p]@ != kept@[q]@,
                forall|p: int| 0 <= p < kept@.len() ==> exists|w: int|
                    0 <= w < i && self.running@[w]@ == #[trigger] kept@[p]@,
                forall|p: int, q: int| 0 <= p < q < self.running@.len() ==> self.running@[p]@
                    != self.running@[q]@,
                self.running@ == old(self).running@,
                self.snapshot == old(self).snapshot,
            decreases self.running@.len() - i,
        {
            let ghost pre = kept@;
            let ghost iold = i as int;
            let keep_it = !self.running[i].eq(name);
            if keep_it {
                let item = self.running[i].clone();
                kept.push(item);
            }
            proof {
                reveal(Seq::filter);
                let rv = strings_view(self.running@);
                let t1 = rv.take(iold + 1);
                assert(t1.drop_last() =~= rv.take(iold));
                assert(t1.last() == self.running@[iold]@);
                if keep_it {
                    assert(strings_view(kept@) =~= strings_view(pre).push(self.running@[iold]@));
                    assert(kept@.len() == pre.len() + 1);
                    assert(kept@[kept@.len() - 1]@ == self.running@[iold]@);
                    assert forall|p: int| 0 <= p < kept@.len() implies exists|w: int|
                        0 <= w < iold + 1 && self.running@[w]@ == #[trigger] kept@[p]@ by {
                        if p == kept@.len() - 1 {
                            assert(self.running@[iold]@ == kept@[p]@);
                        } else {
                            assert(kept@[p] == pre[p]);
                            assert(exists|w: int| 0 <= w < iold && self.running@[w]@ == pre[p]@);
                            let w = choose|w: int| 0 <= w < iold && self.running@[w]@ == pre[p]@;
                            assert(self.running@[w]@ == kept@[p]@);
                        }
                    }
                    assert forall|p: int, q: int| 0 <= p < q < kept@.len() implies kept@[p]@
                        != kept@[q]@ by {
                        if q == kept@.len() - 1 {
                            assert(kept@[p] == pre[p]);
                            let w = choose|w: int| 0 <= w < iold && self.running@[w]@ == pre[p]@;
                            assert(self.running@[w]@ != self.running@[iold]@);
                        }
                    }
                } else {
                    assert(strings_view(kept@) =~= strings_view(pre));
                }
            }
            i = i + 1;
        }
        proof {
            let rv = strings_view(self.running@);
            assert(rv.take(rv.len() as int) =~= rv);
        }
        self.running = kept;
    }

    /// The reload finished: the new snapshot replaces the old.
    pub fn set_snapshot(&mut self, cfg: Config)
        requires
            old(self).wf(),
            cfg.wf(),
        ensures
            final(self).wf(),
            final(self).snapshot_names() == cfg.names(),
            final(self).snapshot_map() == cfg.jobs_map(),
            final(self).running_names() == old(self).running_names(),
    {
        self.snapshot = cfg;
    }
}

} // verus!
