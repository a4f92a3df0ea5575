//! Configuration of the monitor: a set of named jobs, each with its
//! watched paths, watcher settings and alert sinks. The file itself is
//! YAML and is read and decoded outside the library; the decoded plain
//! values land in these types, whose structural equality drives the
//! supervisor's reconciliation.

use vstd::prelude::*;
use crate::assoc::{map_of_pairs, lemma_map_of_pairs_contains, lemma_map_of_pairs_at};

verus! {

/// Per-job watcher settings.
pub struct WatcherConfig {
    /// `"inotify"` (event-driven) or `"poll"`.
    pub mode: String,
    /// Poll interval in seconds; `None` means the default of 5.
    pub poll_interval: Option<u64>,
    /// Debounce window in milliseconds; `None` means the default of 500.
    pub debounce_ms: Option<u64>,
}

/// Per-job alert sink settings. All values are opaque to the core except
/// for their enablement.
pub struct AlertsConfig {
    pub webhook_url: Option<String>,
    pub script_path: Option<String>,
    pub use_syslog: bool,
    pub plugin_path: Option<String>,
    pub payload_template: Option<String>,
}

/// One job: what to watch, how, and whom to tell.
pub struct JobConfig {
    pub watch_paths: Vec<String>,
    /// Reserved; not consumed by the core.
    pub ignore_patterns: Vec<String>,
    pub alerts: AlertsConfig,
    pub watcher: WatcherConfig,
}

/// The whole configuration: job name to job, plus the optional
/// self-integrity digest file consumed outside the core.
pub struct Config {
    pub jobs: Vec<(String, JobConfig)>,
    pub self_integrity_path: Option<String>,
}

/// The view of an optional string.
pub open spec fn opt_view(o: Option<String>) -> Option<Seq<char>> {
    match o {
        Some(s) => Some(s@),
        None => None,
    }
}

/// The view of a list of strings.
pub open spec fn strings_view(v: Seq<String>) -> Seq<Seq<char>> {
    v.map_values(|s: String| s@)
}

#[verifier::ext_equal]
pub ghost struct WatcherView {
    pub mode: Seq<char>,
    pub poll_interval: Option<u64>,
    pub debounce_ms: Option<u64>,
}

#[verifier::ext_equal]
pub ghost struct AlertsView {
    pub webhook_url: Option<Seq<char>>,
    pub script_path: Option<Seq<char>>,
    pub use_syslog: bool,
    pub plugin_path: Option<Seq<char>>,
    pub payload_template: Option<Seq<char>>,
}

#[verifier::ext_equal]
pub ghost struct JobView {
    pub watch_paths: Seq<Seq<char>>,
    pub ignore_patterns: Seq<Seq<char>>,
    pub alerts: AlertsView,
    pub watcher: WatcherView,
}

impl View for WatcherConfig {
    type V = WatcherView;

    open spec fn view(&self) -> WatcherView {
        WatcherView {
            mode: self.mode@,
            poll_interval: self.poll_interval,
            debounce_ms: self.debounce_ms,
        }
    }
}

impl View for AlertsConfig {
    type V = AlertsView;

    open spec fn view(&self) -> AlertsView {
        AlertsView {
            webhook_url: opt_view(self.webhook_url),
            script_path: opt_view(self.script_path),
            use_syslog: self.use_syslog,
            plugin_path: opt_view(self.plugin_path),
            payload_template: opt_view(self.payload_template),
        }
    }
}

impl View for JobConfig {
    type V = JobView;

    open spec fn view(&self) -> JobView {
        JobView {
            watch_paths: strings_view(self.watch_paths@),
            ignore_patterns: strings_view(self.ignore_patterns@),
            alerts: self.alerts@,
            watcher: self.watcher@,
        }
    }
}

impl Config {
    /// The job names, in file order.
    pub open spec fn names(&self) -> Seq<Seq<char>> {
        self.jobs@.map_values(|p: (String, JobConfig)| p.0@)
    }

    /// The named jobs as a mapping.
    pub open spec fn jobs_map(&self) -> Map<Seq<char>, JobView> {
        map_of_pairs(self.jobs@.map_values(|p: (String, JobConfig)| (p.0@, p.1@)))
    }

    /// No job name occurs twice.
    pub open spec fn wf(&self) -> bool {
        forall|i: int, j: int| 0 <= i < j < self.jobs@.len() ==> self.jobs@[i].0@
            != self.jobs@[j].0@
    }

    pub fn job_count(&self) -> (n: usize)
        ensures
            n == self.names().len(),
    {
        self.jobs.len()
    }

    pub fn name_at(&self, i: usize) -> (s: &String)
        requires
            i < self.names().len(),
        ensures
            s@ == self.names()[i as int],
    {
        &self.jobs[i].0
    }

    pub fn job_at(&self, i: usize) -> (j: &JobConfig)
        requires
            self.wf(),
            i < self.names().len(),
        ensures
            self.jobs_map().contains_key(self.names()[i as int]),
            j@ == self.jobs_map()[self.names()[i as int]],
    {
        proof {
            let es = self.jobs@.map_values(|p: (String, JobConfig)| (p.0@, p.1@));
            lemma_map_of_pairs_contains(es, es[i as int].0);
            assert forall|p: int, q: int| 0 <= p < q < es.len() implies es[p].0 != es[q].0 by {
                assert(self.jobs@[p].0@ != self.jobs@[q].0@);
            }
            lemma_map_of_pairs_at(es, i as int);
        }
        &self.jobs[i].1
    }

    /// The job under a name, if any.
    pub fn find_job(&self, name: &String) -> (r: Option<&JobConfig>)
        requires
            self.wf(),
        ensures
            match r {
                Some(j) => self.jobs_map().contains_key(name@) && j@ == self.jobs_map()[name@],
                None => !self.jobs_map().contains_key(name@),
            },
    {
        let ghost es = self.jobs@.map_values(|p: (String, JobConfig)| (p.0@, p.1@));
        proof {
            lemma_map_of_pairs_contains(es, name@);
            assert forall|p: int, q: int| 0 <= p < q < es.len() implies es[p].0 != es[q].0 by {
                assert(self.jobs@[p].0@ != self.jobs@[q].0@);
            }
        }
        let mut i: usize = 0;
        while i < self.jobs.len()
            invariant
                i <= self.jobs@.len(),
                self.wf(),
                es == self.jobs@.map_values(|p: (String, JobConfig)| (p.0@, p.1@)),
                forall|p: int, q: int| 0 <= p < q < es.len() ==> es[p].0 != es[q].0,
                forall|j: int| 0 <= j < i ==> self.jobs@[j].0@ != name@,
            decreases self.jobs@.len() - i,
        {
            if self.jobs[i].0.eq(name) {
                proof {
                    lemma_map_of_pairs_contains(es, name@);
                    lemma_map_of_pairs_at(es, i as int);
                }
                return Some(&self.jobs[i].1);
            }
            i = i + 1;
        }
        proof {
            lemma_map_of_pairs_contains(es, name@);
        }
        None
    }

    pub fn contains_job(&self, name: &String) -> (r: bool)
        requires
            self.wf(),
        ensures
            r == self.jobs_map().contains_key(name@),
    {
        self.find_job(name).is_some()
    }
}

impl WatcherConfig {
    /// The poll interval to use, in seconds: the configured value, or 5.
    /// A configured 0 is kept as 0 — the poll loop then runs without
    /// sleeping; no minimum is imposed.
    pub fn poll_interval_secs(&self) -> (r: u64)
        ensures
            r == (match self@.poll_interval {
                Some(v) => v,
                None => 5u64,
            }),
    {
        match self.poll_interval {
            Some(v) => v,
            None => 5,
        }
    }

    /// The debounce window to use, in milliseconds: the configured value,
    /// or 500. A window of 0 admits every observation.
    pub fn debounce_window_ms(&self) -> (r: u64)
        ensures
            r == (match self@.debounce_ms {
                Some(v) => v,
                None => 500u64,
            }),
    {
        match self.debounce_ms {
            Some(v) => v,
            None => 500,
        }
    }
}

impl Default for WatcherConfig {
    /// Event-driven, five-second poll interval, half-second debounce.
    fn default() -> (r: WatcherConfig)
        ensures
            r@ == (WatcherView {
                mode: "inotify"@,
                poll_interval: Some(5u64),
                debounce_ms: Some(500u64),
            }),
    {
        WatcherConfig {
            mode: String::from_str("inotify"),
            poll_interval: Some(5),
            debounce_ms: Some(500),
        }
    }
}

impl Default for AlertsConfig {
    /// No sink enabled.
    fn default() -> (r: AlertsConfig)
        ensures
            r@ == (AlertsView {
                webhook_url: None::<Seq<char>>,
                script_path: None::<Seq<char>>,
                use_syslog: false,
                plugin_path: None::<Seq<char>>,
                payload_template: None::<Seq<char>>,
            }),
    {
        AlertsConfig {
            webhook_url: None,
            script_path: None,
            use_syslog: false,
            plugin_path: None,
            payload_template: None,
        }
    }
}

impl Default for JobConfig {
    /// Nothing watched, default watcher, no sinks.
    fn default() -> (r: JobConfig)
        ensures
            r@.watch_paths =~= Seq::<Seq<char>>::empty(),
            r@.ignore_patterns =~= Seq::<Seq<char>>::empty(),
            r@.alerts == (AlertsView {
                webhook_url: None::<Seq<char>>,
                script_path: None::<Seq<char>>,
                use_syslog: false,
                plugin_path: None::<Seq<char>>,
                payload_template: None::<Seq<char>>,
            }),
            r@.watcher == (WatcherView {
                mode: "inotify"@,
                poll_interval: Some(5u64),
                debounce_ms: Some(500u64),
            }),
    {
        JobConfig {
            watch_paths: Vec::new(),
            ignore_patterns: Vec::new(),
            alerts: AlertsConfig::default(),
            watcher: WatcherConfig::default(),
        }
    }
}

impl Default for Config {
    /// No jobs, no self-integrity file.
    fn default() -> (r: Config)
        ensures
            r.names() =~= Seq::<Seq<char>>::empty(),
            r.jobs_map() =~= Map::<Seq<char>, JobView>::empty(),
            opt_view(r.self_integrity_path) is None,
            r.wf(),
    {
        Config { jobs: Vec::new(), self_integrity_path: None }
    }
}

fn opt_string_eq(a: &Option<String>, b: &Option<String>) -> (r: bool)
    ensures
        r == (opt_view(*a) == opt_view(*b)),
{
    match (a, b) {
        (None, None) => true,
        (Some(x), Some(y)) => x.eq(y),
        _ => false,
    }
}

fn opt_u64_eq(a: &Option<u64>, b: &Option<u64>) -> (r: bool)
    ensures
        r == (*a == *b),
{
    match (a, b) {
        (None, None) => true,
        (Some(x), Some(y)) => *x == *y,
        _ => false,
    }
}

fn string_vec_eq(a: &Vec<String>, b: &Vec<String>) -> (r: bool)
    ensures
        r == (strings_view(a@) == strings_view(b@)),
{
    if a.len() != b.len() {
        proof {
            assert(strings_view(a@).len() != strings_view(b@).len());
        }
        return false;
    }
    let mut i: usize = 0;
    while i < a.len()
        invariant
            a@.len() == b@.len(),
            i <= a@.len(),
            forall|j: int| 0 <= j < i ==> a@[j]@ == b@[j]@,
        decreases a@.len() - i,
    {
        if !a[i].eq(&b[i]) {
            proof {
                assert(strings_view(a@)[i as int] == a@[i as int]@);
                assert(strings_view(b@)[i as int] == b@[i as int]@);
            }
            return false;
        }
        i = i + 1;
    }
    proof {
        assert(strings_view(a@) =~= strings_view(b@));
    }
    true
}

/// Structural equality of two job configurations, the test that decides a
/// worker restart on reload.
pub fn job_config_eq(a: &JobConfig, b: &JobConfig) -> (r: bool)
    ensures
        r == (a@ == b@),
{
    let paths_eq = string_vec_eq(&a.watch_paths, &b.watch_paths);
    let ignore_eq = string_vec_eq(&a.ignore_patterns, &b.ignore_patterns);
    let alerts_eq = opt_string_eq(&a.alerts.webhook_url, &b.alerts.webhook_url)
        && opt_string_eq(&a.alerts.script_path, &b.alerts.script_path)
        && a.alerts.use_syslog == b.alerts.use_syslog
        && opt_string_eq(&a.alerts.plugin_path, &b.alerts.plugin_path)
        && opt_string_eq(&a.alerts.payload_template, &b.alerts.payload_template);
    let watcher_eq = a.watcher.mode.eq(&b.watcher.mode)
        && opt_u64_eq(&a.watcher.poll_interval, &b.watcher.poll_interval)
        && opt_u64_eq(&a.watcher.debounce_ms, &b.watcher.debounce_ms);
    let r = paths_eq && ignore_eq && alerts_eq && watcher_eq;
    proof {
        if r {
            assert(a@ =~= b@);
        }
    }
    r
}

} // verus!
