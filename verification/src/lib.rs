//! A persistence engine for state machines.
//!
//! Every mutation of an in-memory state is first recorded as one line of an
//! append-only log; a checkpoint captures the whole state in a file of its own
//! and leaves a marker line in the log. On restart the state is rebuilt from
//! the last checkpoint that the log names and the records that follow it.
//!
//! The engine decides and the caller performs: no function here touches a
//! file. Each one takes what was read and hands back what is to be written.
//!
//! - To open, the caller reads the log, asks `snapshot_to_read` which
//!   snapshot the log names, reads that one, and calls `Persist::open` with
//!   both.
//! - To apply an operation, the caller has `Persist::stage` encode it,
//!   appends the record to the log, forces it to stable storage, and calls
//!   `Persist::apply` with what came of that.
//! - To take a checkpoint, the caller calls `Persist::snapshot`, writes the
//!   snapshot under its name, forces it to stable storage, hands what came of
//!   that to `Checkpoint::seal`, and appends the marker it gets, durably, to
//!   the log.

pub mod clock;
pub mod contract;
pub mod engine;
pub mod error;
pub mod laws;
pub mod records;
pub mod recovery;
pub mod storage;

pub use clock::Moment;
pub use contract::{Codec, Persistable};
pub use engine::{Persist, Staged};
pub use error::PersistError;
pub use recovery::snapshot_to_read;
pub use storage::{Checkpoint, ReadOutcome, WriteOutcome};
