//! Keeps a structured roster file synchronized with an external source of
//! truth while other processes may read or edit the file at any time.
//!
//! The library holds the verified core: the optimistic-concurrency file
//! transaction guard, the roster reconciliation algorithm, and the retry
//! policy of the update supervisor. The unverified edge performs the
//! filesystem and network work and feeds plain values in and out.

pub mod errors;
pub mod guard;
pub mod laws;
pub mod numbers;
pub mod reconcile;
pub mod roster;
pub mod sources;
pub mod supervisor;
