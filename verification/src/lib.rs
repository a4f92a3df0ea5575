//! Verified core of a filesystem integrity monitor.
//!
//! A *job* names a set of watched paths. For each job the library keeps a
//! [`baseline::Baseline`] mapping each path to the hex digest of its accepted
//! content, persists it through the JSON codec in [`json`], suppresses rapid
//! repeat observations with [`debounce::Debouncer`], decides per observation
//! whether an alert is due in [`worker`], plans the fan-out of an alert to its
//! sinks in [`alerts`], and reconciles running jobs against a changed
//! configuration in [`supervisor`]. The command line is parsed in [`cli`],
//! and the daemon's own binary is checked against a recorded digest in
//! [`selfcheck`]. All I/O (file reads, OS change notification, the sinks
//! themselves) happens outside the library, which is handed plain values
//! and returns plain values.

pub mod alerts;
pub mod assoc;
pub mod baseline;
pub mod cli;
pub mod config;
pub mod debounce;
pub mod digest;
pub mod json;
pub mod selfcheck;
pub mod store;
pub mod supervisor;
pub mod text;
pub mod worker;
