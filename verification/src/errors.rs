use vstd::prelude::*;

verus! {

/// Every failure the update cycle can surface.
///
/// `Conflict` is the expected, transient interference signal; `Malformed`
/// marks a document that lacks the expected shape (an occupied slot whose
/// identity is not a decimal 64-bit number); `Io` stands for a failed
/// filesystem operation, reported by the unverified edge; the last two are
/// caller-data errors from the reconciliation passes.
#[derive(Debug)]
pub enum UpdateError {
    Conflict,
    Malformed,
    Io,
    NoMatchingClass { car: String },
    NoAvailableSlot { driver_name: String },
}

} // verus!
