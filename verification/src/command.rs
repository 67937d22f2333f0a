//! The command contract.
//!
//! Applying a command to a (possibly stale) aggregate either yields a
//! non-empty ordered list of events or fails with a caller-defined error.

use vstd::prelude::*;

use crate::aggregate::Aggregate;

verus! {

/// A state transition request against one aggregate type.
pub trait Command: Sized {
    type Aggregate: Aggregate;

    type Error;

    /// Produces the events this command causes on the given state, or
    /// refuses with a caller-defined error.  A successful command yields
    /// at least one event.
    fn apply(&self, aggregate: &Self::Aggregate) -> (r: Result<
        Vec<<Self::Aggregate as Aggregate>::Event>,
        Self::Error,
    >)
        ensures
            r matches Ok(events) ==> 1 <= events@.len() <= i64::MAX,
    ;
}

} // verus!
