//! The baseline store: resolve the baseline for a named job. When a
//! persisted file exists and parses, it is used unchanged; otherwise a
//! fresh baseline is generated from the watched paths' current content and
//! handed back together with the text to persist.
//!
//! The caller reads and writes the file `baseline_<job_name>.json`; this
//! module makes every decision in between.

use vstd::prelude::*;
use crate::assoc::map_of_pairs;
use crate::baseline::{Baseline, all_readable, generated_map, first_unreadable, generate};
use crate::json::{sp_baseline, serialized, distinct_keys, parse_baseline_string,
    serialize_baseline_string};

verus! {

/// The canonical location of a job's persisted baseline, relative to the
/// working directory: `baseline_<job_name>.json`.
pub fn baseline_filename(job_name: &String) -> (r: String)
    ensures
        r@ == "baseline_"@ + job_name@ + ".json"@,
{
    let mut r = String::from_str("baseline_");
    r.append(job_name.as_str());
    r.append(".json");
    r
}

/// Why a baseline could not be resolved.
#[derive(Debug)]
pub enum StoreError {
    /// A watched path could not be read while generating; generation
    /// aborts at the first such path and the job is skipped.
    Unreadable { path: String },
    /// The persisted file exists but is not a JSON object of strings.
    Malformed,
}

/// A resolved baseline.
pub enum StoreOutcome {
    /// The persisted file was parsed and is used as it stands.
    Loaded(Baseline),
    /// No persisted file existed: a fresh baseline, and the text the
    /// caller must write at the canonical location.
    Generated(Baseline, String),
}

/// Resolve one job's baseline. `persisted` is the content of the job's
/// baseline file when it exists; `reads` pairs each watched path with the
/// content read from it (`None`: unreadable).
pub fn load_or_generate(
    persisted: Option<&String>,
    reads: &Vec<(String, Option<Vec<u8>>)>,
) -> (r: Result<StoreOutcome, StoreError>)
    ensures
        match persisted {
            Some(text) => match r {
                Ok(out) => {
                    &&& out matches StoreOutcome::Loaded(b)
                    &&& sp_baseline(text@) matches Some(es)
                    &&& b.wf()
                    &&& b@ == map_of_pairs(sp_baseline(text@)->Some_0)
                    &&& distinct_keys(sp_baseline(text@)->Some_0) ==> b.entries_view()
                        =~= sp_baseline(text@)->Some_0
                },
                Err(e) => e is Malformed && sp_baseline(text@) is None,
            },
            None => match r {
                Ok(out) => {
                    &&& out matches StoreOutcome::Generated(b, text)
                    &&& all_readable(reads@)
                    &&& b.wf()
                    &&& b@ =~= generated_map(reads@)
                    &&& text@ == serialized(b.entries_view())
                },
                Err(e) => {
                    &&& !all_readable(reads@)
                    &&& e matches StoreError::Unreadable { path }
                    &&& path@ == reads@[first_unreadable(reads@)].0@
                },
            },
        },
{
    match persisted {
        Some(text) => match parse_baseline_string(text) {
            Some(b) => Ok(StoreOutcome::Loaded(b)),
            None => Err(StoreError::Malformed),
        },
        None => match generate(reads) {
            Ok(b) => {
                let text = serialize_baseline_string(&b);
                Ok(StoreOutcome::Generated(b, text))
            },
            Err(f) => Err(StoreError::Unreadable { path: f.path }),
        },
    }
}

/// Law: the store is idempotent. A first call with no persisted file
/// generates a baseline `b` and the text to persist; any later call that
/// is handed that text back parses it to exactly `b`'s entries, and so to
/// `b`'s mapping — on an unchanging filesystem the two calls agree. Two
/// loads of the same text agree outright, by determinism of the parser.
pub proof fn lemma_store_idempotent(b: Baseline)
    requires
        b.wf(),
    ensures
        sp_baseline(serialized(b.entries_view())) == Some(b.entries_view()),
        distinct_keys(b.entries_view()),
        map_of_pairs(b.entries_view()) == b@,
{
    crate::json::lemma_baseline_roundtrip(b);
}

} // verus!
