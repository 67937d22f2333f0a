//! The aggregate contract.
//!
//! An aggregate is a logical entity whose state is derived by folding a
//! sequence of events; it is identified by a 128-bit identifier and
//! carries a version that counts the events applied so far.

use vstd::prelude::*;

use crate::events::Event;

verus! {

/// A replayable state type.  Applying an event advances the version by
/// exactly one and never changes the identity, which is what lets the
/// replay engine account for versions without looking into the state.
pub trait Aggregate: Sized {
    type Event: Event;

    /// The identifier this state is bound to.
    open spec fn spec_id(&self) -> u128 {
        arbitrary()
    }

    /// The number of events folded into this state.
    open spec fn spec_version(&self) -> int {
        arbitrary()
    }

    /// The canonical empty state, bound to `id`.
    fn with_id(id: u128) -> (a: Self)
        ensures
            a.spec_id() == id,
            a.spec_version() == 0,
    ;

    /// Folds one event into the state.
    fn apply(&self, event: &Self::Event) -> (a: Self)
        requires
            self.spec_version() < i64::MAX,
        ensures
            a.spec_id() == self.spec_id(),
            a.spec_version() == self.spec_version() + 1,
    ;

    /// The version of this state.
    fn version(&self) -> (v: i64)
        ensures
            v == self.spec_version(),
    ;

    /// The identifier of this state.
    fn id(&self) -> (i: u128)
        ensures
            i == self.spec_id(),
    ;
}

} // verus!
