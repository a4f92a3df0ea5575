//! The per-job worker: a state machine that decides, for each observed path
//! activity, whether an alert is due. The surrounding loop (OS change
//! events or a poll timer, file reads, the sinks) runs outside the library
//! and drives this machine with plain values.
//!
//! An observation is handled in two calls: [`Worker::observe_precheck`]
//! consults the debouncer, and — only when it accepted and the caller could
//! read and digest the path — [`Worker::apply_digest`] compares against the
//! baseline, updates it, and reports the alert to dispatch.

use vstd::prelude::*;
use crate::baseline::Baseline;
use crate::debounce::{Debouncer, accepts};

verus! {

/// Watcher mode of a job, fixed for the life of its worker.
#[derive(Clone, Copy, Debug, PartialEq, Eq, Structural)]
pub enum Mode {
    /// OS change notification ("inotify" in the configuration).
    Event,
    /// Timed scan of the watch list.
    Poll,
    /// Anything else: the worker stops immediately.
    Unknown,
}

/// Lifecycle of a worker.
#[derive(Clone, Copy, Debug, PartialEq, Eq, Structural)]
pub enum Phase {
    Starting,
    Armed,
    Stopping,
    Stopped,
}

/// The watcher mode a configuration string names.
pub open spec fn mode_of(s: Seq<char>) -> Mode {
    if s == "inotify"@ {
        Mode::Event
    } else if s == "poll"@ {
        Mode::Poll
    } else {
        Mode::Unknown
    }
}

/// Map a configured mode string to the watcher mode.
pub fn parse_mode(s: &String) -> (m: Mode)
    ensures
        m == mode_of(s@),
{
    if s.eq(&String::from_str("inotify")) {
        Mode::Event
    } else if s.eq(&String::from_str("poll")) {
        Mode::Poll
    } else {
        Mode::Unknown
    }
}

/// One alert: a watched path whose content digest diverged from the
/// baseline.
pub struct Alert {
    pub path: String,
    pub old: String,
    pub new: String,
}

/// The mathematical state of a worker.
#[verifier::ext_equal]
pub ghost struct WorkerModel {
    pub phase: Phase,
    pub mode: Mode,
    pub baseline: Map<Seq<char>, Seq<char>>,
    pub debounce: Map<Seq<char>, u64>,
    pub window: u64,
}

/// An alert in the model.
#[verifier::ext_equal]
pub ghost struct AlertInfo {
    pub path: Seq<char>,
    pub old: Seq<char>,
    pub new: Seq<char>,
}

/// The debounce decision for an observation of `path` at `now`: whether to
/// go on, recording the acceptance.
pub open spec fn precheck_effect(m: WorkerModel, path: Seq<char>, now: u64) -> (WorkerModel, bool) {
    if m.phase is Armed && accepts(m.debounce, m.window, path, now) {
        (WorkerModel { debounce: m.debounce.insert(path, now), ..m }, true)
    } else {
        (m, false)
    }
}

/// The baseline comparison once an accepted observation's digest `d` is
/// known: a path outside the baseline is ignored, an unchanged digest is
/// ignored, a changed one yields the alert and the updated entry.
pub open spec fn apply_effect(m: WorkerModel, path: Seq<char>, d: Seq<char>) -> (
    WorkerModel,
    Option<AlertInfo>,
) {
    if !(m.phase is Armed) {
        (m, None)
    } else if !m.baseline.contains_key(path) {
        (m, None)
    } else if m.baseline[path] == d {
        (m, None)
    } else {
        (
            WorkerModel { baseline: m.baseline.insert(path, d), ..m },
            Some(AlertInfo { path, old: m.baseline[path], new: d }),
        )
    }
}

/// What can happen to a worker.
pub ghost enum WorkerEvent {
    /// Path activity at `time`; `dgst` is the digest the caller computed
    /// after acceptance (`None`: the read failed, or was never attempted).
    Observe { path: Seq<char>, time: u64, dgst: Option<Seq<char>> },
    /// Registration finished; a worker of unknown mode stops instead.
    Arm,
    /// The supervisor signalled stop.
    StopRequest,
    /// The worker's loop wound down after the stop signal.
    StopComplete,
}

/// One transition of the worker machine.
pub open spec fn model_step(m: WorkerModel, ev: WorkerEvent) -> (WorkerModel, Option<AlertInfo>) {
    match ev {
        WorkerEvent::Observe { path, time, dgst } => {
            let r = precheck_effect(m, path, time);
            if r.1 {
                match dgst {
                    Some(d) => apply_effect(r.0, path, d),
                    None => (r.0, None),
                }
            } else {
                (r.0, None)
            }
        },
        WorkerEvent::Arm => {
            if m.phase is Starting {
                if m.mode is Unknown {
                    (WorkerModel { phase: Phase::Stopped, ..m }, None)
                } else {
                    (WorkerModel { phase: Phase::Armed, ..m }, None)
                }
            } else {
                (m, None)
            }
        },
        WorkerEvent::StopRequest => {
            if m.phase is Stopped {
                (m, None)
            } else {
                (WorkerModel { phase: Phase::Stopping, ..m }, None)
            }
        },
        WorkerEvent::StopComplete => {
            if m.phase is Stopping {
                (WorkerModel { phase: Phase::Stopped, ..m }, None)
            } else {
                (m, None)
            }
        },
    }
}

/// The state after a sequence of events.
pub open spec fn run_state(m: WorkerModel, evs: Seq<WorkerEvent>) -> WorkerModel
    decreases evs.len(),
{
    if evs.len() == 0 {
        m
    } else {
        run_state(model_step(m, evs[0]).0, evs.drop_first())
    }
}

/// Every alert a sequence of events produces, in order.
pub open spec fn run_alerts(m: WorkerModel, evs: Seq<WorkerEvent>) -> Seq<AlertInfo>
    decreases evs.len(),
{
    if evs.len() == 0 {
        Seq::empty()
    } else {
        let s = model_step(m, evs[0]);
        (match s.1 {
            Some(ai) => seq![ai],
            None => Seq::empty(),
        }) + run_alerts(s.0, evs.drop_first())
    }
}

/// Law: an observation of a path absent from the baseline dispatches no
/// alert and leaves the baseline untouched — the baseline is the job's
/// closed world.
pub proof fn lemma_unknown_path_ignored(
    m: WorkerModel,
    path: Seq<char>,
    time: u64,
    dgst: Option<Seq<char>>,
)
    requires
        !m.baseline.contains_key(path),
    ensures
        model_step(m, WorkerEvent::Observe { path, time, dgst }).1 is None,
        model_step(m, WorkerEvent::Observe { path, time, dgst }).0.baseline =~= m.baseline,
{
}

/// No step grows or shrinks the set of paths a worker's baseline knows.
pub proof fn lemma_baseline_dom_stable(m: WorkerModel, evs: Seq<WorkerEvent>)
    ensures
        run_state(m, evs).baseline.dom() =~= m.baseline.dom(),
    decreases evs.len(),
{
    if evs.len() > 0 {
        let m1 = model_step(m, evs[0]).0;
        assert(m1.baseline.dom() =~= m.baseline.dom());
        lemma_baseline_dom_stable(m1, evs.drop_first());
    }
}

/// Law: over any sequence of events, no alert is ever dispatched for a path
/// that the baseline did not hold at the start.
pub proof fn lemma_no_alert_for_unknown_path(m: WorkerModel, evs: Seq<WorkerEvent>, p: Seq<char>)
    requires
        !m.baseline.contains_key(p),
    ensures
        forall|i: int| 0 <= i < run_alerts(m, evs).len() ==> #[trigger] run_alerts(m, evs)[i].path
            != p,
    decreases evs.len(),
{
    if evs.len() > 0 {
        let s = model_step(m, evs[0]);
        assert(s.0.baseline.dom() =~= m.baseline.dom());
        lemma_no_alert_for_unknown_path(s.0, evs.drop_first(), p);
        match s.1 {
            Some(ai) => {
                assert(run_alerts(m, evs) =~= seq![ai] + run_alerts(s.0, evs.drop_first()));
            },
            None => {
                assert(run_alerts(m, evs) =~= run_alerts(s.0, evs.drop_first()));
            },
        }
    }
}

/// Law: a worker whose baseline is empty never dispatches — in particular,
/// a job with an empty watch list.
pub proof fn lemma_empty_baseline_never_alerts(m: WorkerModel, evs: Seq<WorkerEvent>)
    requires
        m.baseline =~= Map::<Seq<char>, Seq<char>>::empty(),
    ensures
        run_alerts(m, evs) =~= Seq::<AlertInfo>::empty(),
    decreases evs.len(),
{
    if evs.len() > 0 {
        let s = model_step(m, evs[0]);
        assert(s.0.baseline =~= m.baseline);
        lemma_empty_baseline_never_alerts(s.0, evs.drop_first());
    }
}

/// A worker that has been told to stop, or has stopped.
pub open spec fn stopped(m: WorkerModel) -> bool {
    m.phase is Stopping || m.phase is Stopped
}

/// Law: once a worker has been told to stop, no later event dispatches an
/// alert, and the worker never observes again.
pub proof fn lemma_no_dispatch_after_stop(m: WorkerModel, evs: Seq<WorkerEvent>)
    requires
        stopped(m),
    ensures
        stopped(run_state(m, evs)),
        run_alerts(m, evs) =~= Seq::<AlertInfo>::empty(),
    decreases evs.len(),
{
    if evs.len() > 0 {
        let s = model_step(m, evs[0]);
        assert(stopped(s.0));
        assert(s.1 is None);
        lemma_no_dispatch_after_stop(s.0, evs.drop_first());
    }
}

/// The digests actually computed for path `p` during a run: those of
/// observations of `p` that the worker, armed, accepted and whose read
/// succeeded.
pub open spec fn run_computed(m: WorkerModel, evs: Seq<WorkerEvent>, p: Seq<char>) -> Seq<Seq<char>>
    decreases evs.len(),
{
    if evs.len() == 0 {
        Seq::empty()
    } else {
        let m1 = model_step(m, evs[0]).0;
        let rest = run_computed(m1, evs.drop_first(), p);
        match evs[0] {
            WorkerEvent::Observe { path, time, dgst } => {
                if path == p && precheck_effect(m, path, time).1 && dgst is Some {
                    seq![dgst->Some_0] + rest
                } else {
                    rest
                }
            },
            _ => rest,
        }
    }
}

/// Law: for every path the baseline holds, after any sequence of events its
/// entry equals the digest last computed for that path — or its initial
/// value, when no observation of it ever got as far as a digest.
pub proof fn lemma_baseline_tracks_last_digest(
    m: WorkerModel,
    evs: Seq<WorkerEvent>,
    p: Seq<char>,
)
    requires
        m.baseline.contains_key(p),
    ensures
        run_state(m, evs).baseline.contains_key(p),
        run_state(m, evs).baseline[p] == if run_computed(m, evs, p).len() > 0 {
            run_computed(m, evs, p).last()
        } else {
            m.baseline[p]
        },
    decreases evs.len(),
{
    if evs.len() > 0 {
        let m1 = model_step(m, evs[0]).0;
        assert(m1.baseline.contains_key(p));
        lemma_baseline_tracks_last_digest(m1, evs.drop_first(), p);
        let rest = run_computed(m1, evs.drop_first(), p);
        match evs[0] {
            WorkerEvent::Observe { path, time, dgst } => {
                if path == p && precheck_effect(m, path, time).1 && dgst is Some {
                    let d = dgst->Some_0;
                    assert(m1.baseline[p] == d);
                    assert(run_computed(m, evs, p) =~= seq![d] + rest);
                    if rest.len() > 0 {
                        assert(run_computed(m, evs, p).last() == rest.last());
                    } else {
                        assert(run_computed(m, evs, p).last() == d);
                    }
                } else {
                    assert(m1.baseline[p] == m.baseline[p]);
                    assert(run_computed(m, evs, p) =~= rest);
                }
            },
            _ => {
                assert(m1.baseline[p] == m.baseline[p]);
                assert(run_computed(m, evs, p) =~= rest);
            },
        }
    }
}

/// Whether an event is an observation.
pub open spec fn is_observe(ev: WorkerEvent) -> bool {
    ev is Observe
}

/// The time an observation carries; other events carry none.
pub open spec fn ev_time(ev: WorkerEvent) -> u64 {
    match ev {
        WorkerEvent::Observe { time, .. } => time,
        _ => 0,
    }
}

/// Observation times never run backwards.
pub open spec fn times_monotone(evs: Seq<WorkerEvent>) -> bool {
    forall|i: int, j: int|
        0 <= i <= j < evs.len() && is_observe(evs[i]) && is_observe(evs[j]) ==> ev_time(evs[i])
            <= ev_time(evs[j])
}

/// The times at which a run dispatches an alert for path `p`.
pub open spec fn run_alert_times(m: WorkerModel, evs: Seq<WorkerEvent>, p: Seq<char>) -> Seq<u64>
    decreases evs.len(),
{
    if evs.len() == 0 {
        Seq::empty()
    } else {
        let s = model_step(m, evs[0]);
        let rest = run_alert_times(s.0, evs.drop_first(), p);
        match s.1 {
            Some(ai) => if ai.path == p {
                seq![ev_time(evs[0])] + rest
            } else {
                rest
            },
            None => rest,
        }
    }
}

proof fn lemma_alert_spacing_aux(m: WorkerModel, evs: Seq<WorkerEvent>, p: Seq<char>)
    requires
        times_monotone(evs),
    ensures
        ({
            let ts = run_alert_times(m, evs, p);
            &&& forall|i: int| 0 <= i < ts.len() - 1 ==> #[trigger] ts[i + 1] >= ts[i] + m.window
            &&& forall|i: int| 0 <= i < ts.len() ==> exists|q: int|
                0 <= q < evs.len() && is_observe(evs[q]) && #[trigger] ts[i] == ev_time(evs[q])
            &&& (m.debounce.contains_key(p) && m.window > 0 && ts.len() > 0 ==> ts[0]
                >= m.debounce[p] + m.window)
        }),
    decreases evs.len(),
{
    let ts = run_alert_times(m, evs, p);
    if evs.len() > 0 {
        let hd = evs[0];
        let s = model_step(m, hd);
        let m1 = s.0;
        let rest = evs.drop_first();
        assert(m1.window == m.window);
        assert forall|i: int, j: int|
            0 <= i <= j < rest.len() && is_observe(rest[i]) && is_observe(rest[j]) implies ev_time(
            rest[i],
        ) <= ev_time(rest[j]) by {
            assert(rest[i] == evs[i + 1]);
            assert(rest[j] == evs[j + 1]);
        }
        lemma_alert_spacing_aux(m1, rest, p);
        let tr = run_alert_times(m1, rest, p);
        let alerted = s.1 matches Some(ai) && ai.path == p;
        if alerted {
            let time = ev_time(hd);
            assert(hd is Observe);
            assert(ts =~= seq![time] + tr);
            assert(m1.debounce.contains_key(p) && m1.debounce[p] == time);
            assert forall|i: int| 0 <= i < ts.len() implies exists|q: int|
                0 <= q < evs.len() && is_observe(evs[q]) && #[trigger] ts[i] == ev_time(
                evs[q],
            ) by {
                if i == 0 {
                    assert(is_observe(evs[0]) && ts[0] == ev_time(evs[0]));
                } else {
                    let q = choose|q: int|
                        0 <= q < rest.len() && is_observe(rest[q]) && tr[i - 1] == ev_time(
                            rest[q],
                        );
                    assert(rest[q] == evs[q + 1]);
                    assert(ts[i] == ev_time(evs[q + 1]) && is_observe(evs[q + 1]));
                }
            }
            assert forall|i: int| 0 <= i < ts.len() - 1 implies #[trigger] ts[i + 1] >= ts[i]
                + m.window by {
                if i == 0 {
                    assert(ts[0] == time);
                    assert(ts[1] == tr[0]);
                    if m.window > 0 {
                        assert(tr[0] >= m1.debounce[p] + m1.window);
                    } else {
                        let q = choose|q: int|
                            0 <= q < rest.len() && is_observe(rest[q]) && tr[0] == ev_time(
                                rest[q],
                            );
                        assert(rest[q] == evs[q + 1]);
                        assert(ev_time(evs[0]) <= ev_time(evs[q + 1]));
                    }
                } else {
                    assert(ts[i] == tr[i - 1]);
                    assert(ts[i + 1] == tr[i]);
                    assert(tr[(i - 1) + 1] >= tr[i - 1] + m1.window);
                }
            }
            if m.debounce.contains_key(p) && m.window > 0 && ts.len() > 0 {
                assert(accepts(m.debounce, m.window, p, time));
                assert(crate::debounce::sat_sub(time, m.debounce[p]) >= m.window);
            }
        } else {
            assert(ts =~= tr);
            assert forall|i: int| 0 <= i < ts.len() implies exists|q: int|
                0 <= q < evs.len() && is_observe(evs[q]) && #[trigger] ts[i] == ev_time(
                evs[q],
            ) by {
                let q = choose|q: int|
                    0 <= q < rest.len() && is_observe(rest[q]) && tr[i] == ev_time(rest[q]);
                assert(rest[q] == evs[q + 1]);
                assert(ts[i] == ev_time(evs[q + 1]) && is_observe(evs[q + 1]));
            }
            if m.debounce.contains_key(p) && m.window > 0 && ts.len() > 0 {
                match hd {
                    WorkerEvent::Observe { path, time, dgst } => {
                        if precheck_effect(m, path, time).1 {
                            if path == p {
                                assert(m1.debounce.contains_key(p) && m1.debounce[p] == time);
                                assert(tr[0] >= time + m.window);
                                assert(accepts(m.debounce, m.window, p, time));
                                assert(crate::debounce::sat_sub(time, m.debounce[p])
                                    >= m.window);
                            } else {
                                assert(m1.debounce.contains_key(p) && m1.debounce[p]
                                    == m.debounce[p]);
                                assert(tr[0] >= m1.debounce[p] + m.window);
                            }
                        } else {
                            assert(m1.debounce == m.debounce);
                            assert(tr[0] >= m.debounce[p] + m.window);
                        }
                    },
                    _ => {
                        assert(m1.debounce == m.debounce);
                        assert(tr[0] >= m.debounce[p] + m.window);
                    },
                }
            }
        }
    }
}

/// Law: for every path and every debounce window, at most one alert is
/// dispatched in any interval of the window's length: whatever state the
/// worker starts in, any two successive alerts for one path are at least
/// the window apart, provided observation times do not run backwards.
pub proof fn lemma_alert_window_spacing(m: WorkerModel, evs: Seq<WorkerEvent>, p: Seq<char>, i: int)
    requires
        times_monotone(evs),
        0 <= i,
        i + 1 < run_alert_times(m, evs, p).len(),
    ensures
        run_alert_times(m, evs, p)[i + 1] >= run_alert_times(m, evs, p)[i] + m.window,
{
    lemma_alert_spacing_aux(m, evs, p);
}

/// The same bound between any two alerts for the path, not only
/// neighbouring ones.
pub proof fn lemma_alert_window_spacing_pairs(
    m: WorkerModel,
    evs: Seq<WorkerEvent>,
    p: Seq<char>,
    i: int,
    j: int,
)
    requires
        times_monotone(evs),
        0 <= i < j < run_alert_times(m, evs, p).len(),
    ensures
        run_alert_times(m, evs, p)[j] >= run_alert_times(m, evs, p)[i] + m.window,
    decreases j - i,
{
    lemma_alert_spacing_aux(m, evs, p);
    let ts = run_alert_times(m, evs, p);
    if j == i + 1 {
    } else {
        lemma_alert_window_spacing_pairs(m, evs, p, i, j - 1);
        assert(ts[(j - 1) + 1] >= ts[j - 1] + m.window);
    }
}

/// The per-job worker.
pub struct Worker {
    phase: Phase,
    mode: Mode,
    baseline: Baseline,
    debounce: Debouncer,
}

impl Worker {
    pub closed spec fn model(&self) -> WorkerModel {
        WorkerModel {
            phase: self.phase,
            mode: self.mode,
            baseline: self.baseline@,
            debounce: self.debounce@,
            window: self.debounce.window(),
        }
    }

    pub closed spec fn wf(&self) -> bool {
        self.baseline.wf() && self.debounce.wf()
    }

    /// A fresh worker for one job: its baseline, debounce window and mode.
    /// It starts in `Starting`; the caller arms it once observation is set
    /// up.
    pub fn new(mode: Mode, baseline: Baseline, debounce_ms: u64) -> (w: Worker)
        requires
            baseline.wf(),
        ensures
            w.wf(),
            w.model() =~= (WorkerModel {
                phase: Phase::Starting,
                mode,
                baseline: baseline@,
                debounce: Map::empty(),
                window: debounce_ms,
            }),
    {
        Worker { phase: Phase::Starting, mode, baseline, debounce: Debouncer::new(debounce_ms) }
    }

    pub fn phase(&self) -> (p: Phase)
        ensures
            p == self.model().phase,
    {
        self.phase
    }

    pub fn mode(&self) -> (m: Mode)
        ensures
            m == self.model().mode,
    {
        self.mode
    }

    /// The worker's baseline, for reading.
    pub fn baseline_ref(&self) -> (b: &Baseline)
        requires
            self.wf(),
        ensures
            b@ =~= self.model().baseline,
            b.wf(),
    {
        &self.baseline
    }

    /// Observation is set up: enter `Armed` — or `Stopped` straight away
    /// when the configured mode was not recognized.
    pub fn arm(&mut self)
        requires
            old(self).wf(),
        ensures
            final(self).wf(),
            final(self).model() =~= model_step(old(self).model(), WorkerEvent::Arm).0,
    {
        match self.phase {
            Phase::Starting => {
                match self.mode {
                    Mode::Unknown => {
                        self.phase = Phase::Stopped;
                    },
                    _ => {
                        self.phase = Phase::Armed;
                    },
                }
            },
            _ => {},
        }
    }

    /// The supervisor asked this worker to stop.
    pub fn request_stop(&mut self)
        requires
            old(self).wf(),
        ensures
            final(self).wf(),
            final(self).model() =~= model_step(old(self).model(), WorkerEvent::StopRequest).0,
    {
        match self.phase {
            Phase::Stopped => {},
            _ => {
                self.phase = Phase::Stopping;
            },
        }
    }

    /// The worker's loop has wound down after the stop signal.
    pub fn confirm_stopped(&mut self)
        requires
            old(self).wf(),
        ensures
            final(self).wf(),
            final(self).model() =~= model_step(old(self).model(), WorkerEvent::StopComplete).0,
    {
        match self.phase {
            Phase::Stopping => {
                self.phase = Phase::Stopped;
            },
            _ => {},
        }
    }

    /// First half of an observation: consult the debouncer. Returns whether
    /// the caller should read and digest the path; acceptance is recorded.
    pub fn observe_precheck(&mut self, path: &String, now: u64) -> (r: bool)
        requires
            old(self).wf(),
        ensures
            final(self).wf(),
            final(self).model() =~= precheck_effect(old(self).model(), path@, now).0,
            r == precheck_effect(old(self).model(), path@, now).1,
    {
        match self.phase {
            Phase::Armed => self.debounce.should_accept(path, now),
            _ => false,
        }
    }

    /// Second half of an observation whose digest could be computed:
    /// compare with the baseline, update it on divergence, and hand back
    /// the alert to dispatch. A path outside the baseline is ignored: the
    /// baseline is the job's closed world.
    pub fn apply_digest(&mut self, path: &String, dgst: &String) -> (r: Option<Alert>)
        requires
            old(self).wf(),
        ensures
            final(self).wf(),
            final(self).model() =~= apply_effect(old(self).model(), path@, dgst@).0,
            match r {
                Some(a) => {
                    &&& apply_effect(old(self).model(), path@, dgst@).1 matches Some(ai)
                    &&& a.path@ == ai.path
                    &&& a.old@ == ai.old
                    &&& a.new@ == ai.new
                },
                None => apply_effect(old(self).model(), path@, dgst@).1 is None,
            },
    {
        match self.phase {
            Phase::Armed => {
                let stored = match self.baseline.get(path) {
                    Some(d) => Some(d.clone()),
                    None => None,
                };
                match stored {
                    None => None,
                    Some(old_d) => {
                        if old_d.eq(dgst) {
                            None
                        } else {
                            self.baseline.set(path, dgst);
                            Some(Alert { path: path.clone(), old: old_d, new: dgst.clone() })
                        }
                    },
                }
            },
            _ => None,
        }
    }
}

} // verus!
