//! The ways in which the engine fails.

use vstd::prelude::*;

verus! {

/// Why a call of the engine failed.
#[derive(Clone, Copy, Debug, PartialEq, Eq, Structural)]
pub enum PersistError {
    /// The directory holds no log. The only failure after which a fresh
    /// instance may be created in its place.
    NotFound,
    /// The storage could not be read, written or made durable.
    Io,
    /// A record of the log or a snapshot is not the encoding of a value.
    Decode,
    /// An operation or the state could not be encoded.
    Encode,
    /// The clock gave no moment to identify a snapshot by.
    Clock,
}

} // verus!
