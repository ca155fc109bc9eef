//! Verified core of a snapshot backup manager for copy-on-write volumes.
//!
//! The library covers the decision logic of the manager: matching on-disk
//! backup artifacts to live volumes and snapshots, choosing incremental
//! baselines, parsing the telemetry of the snapshot-streaming pipeline,
//! digesting the archive bytes, and the retention policy that thins old
//! snapshots.  All I/O (process spawning, files, terminals) lives outside
//! the library and hands it plain values.

pub mod backups;
pub mod dates;
pub mod hash_stream;
pub mod inventory;
pub mod zfs_error;
pub mod reconcile;
pub mod retention;
pub mod send;
pub mod table;
pub mod text;

use vstd::prelude::*;

verus! {

} // verus!
