//! The event contract.
//!
//! Events are opaque to the engine: the store keeps them as byte payloads
//! and the replay engine folds them into aggregate state.  What the engine
//! needs from an event type is a codec for ordered lists of events, pinned
//! down by an abstract decoding function so that encoding and decoding are
//! provably inverse.

use vstd::prelude::*;

verus! {

/// An event or metadata payload could not be encoded, or a retrieved
/// payload could not be decoded.
#[derive(Clone, Copy, Debug, PartialEq, Eq, Structural)]
pub enum EncodingError {
    /// The payload does not decode to a list of events.
    Malformed,
    /// Replaying the payloads would push the aggregate version past its
    /// machine bound.
    Overflow,
}

/// A domain event.  The codec for ordered event lists is part of the
/// contract: `decoded` is the abstract meaning of a payload, `encode_all`
/// must produce payloads that decode to what was encoded, and `decode_all`
/// must agree with `decoded` exactly.
pub trait Event: Sized {
    /// The event list a payload stands for, if it is well formed.  An
    /// implementation may leave this unspecified; the codec contracts
    /// below then promise nothing useful of it.
    open spec fn decoded(bytes: Seq<u8>) -> Option<Seq<Self>> {
        arbitrary()
    }

    /// Encodes an ordered list of events into one payload.
    fn encode_all(events: &Vec<Self>) -> (r: Result<Vec<u8>, EncodingError>)
        ensures
            r matches Ok(bytes) ==> Self::decoded(bytes@) == Some(events@),
    ;

    /// Decodes a payload back into the ordered list of events it holds.
    fn decode_all(bytes: &Vec<u8>) -> (r: Result<Vec<Self>, EncodingError>)
        ensures
            r matches Ok(events) ==> Self::decoded(bytes@) == Some(events@),
            r is Err <==> Self::decoded(bytes@) is None,
    ;
}

/// Caller-chosen metadata attached to a commit.  The engine never inspects
/// it; it only asks for an encoded form to persist alongside the events.
pub trait Metadata: Sized {
    /// Encodes the metadata into one payload.
    fn encode(&self) -> (r: Result<Vec<u8>, EncodingError>);
}

} // verus!
