//! The engine: recovery at start, logged mutation, checkpoints.

use vstd::prelude::*;
use crate::clock::{Moment, identifier, identify, read_clock, timestamp_shaped};
use crate::contract::{
    Persistable, applies, default_state, encode_value, encodes_to, encoding_fails, is_default,
    transition,
};
use crate::error::PersistError;
use crate::records::{NEWLINE, name_snapshot, snapshot_name, terminate};
use crate::recovery::{lemma_not_found_means_no_log, recover, recovers};
use crate::storage::{Checkpoint, CheckpointView, ReadOutcome, ReadView, WriteOutcome};

verus! {

/// A state and the directory that it is persisted in.
///
/// The state changes through `apply` alone, and only once the record of the
/// operation is on stable storage.
pub struct Persist<T: Persistable> {
    state: T,
    path: String,
}

/// What a `Persist` holds.
pub struct PersistView<T> {
    pub state: T,
    pub path: Seq<char>,
}

impl<T: Persistable> View for Persist<T> {
    type V = PersistView<T>;

    closed spec fn view(&self) -> PersistView<T> {
        PersistView { state: self.state, path: self.path@ }
    }
}

/// An operation together with its record, on its way to the log.
pub struct Staged<T: Persistable> {
    op: T::Operation,
    record: Vec<u8>,
}

/// What a `Staged` holds.
pub struct StagedView<T: Persistable> {
    pub operation: T::Operation,
    pub record: Seq<u8>,
}

impl<T: Persistable> View for Staged<T> {
    type V = StagedView<T>;

    closed spec fn view(&self) -> StagedView<T> {
        StagedView { operation: self.op, record: self.record@ }
    }
}

impl<T: Persistable> Staged<T> {
    /// The line to append to the log.
    pub fn record(&self) -> (record: &Vec<u8>)
        ensures
            record@ == self@.record,
    {
        &self.record
    }
}

/// `record` is the line that logs `op`: an encoding of `op` and the line terminator.
pub open spec fn logs<T: Persistable>(op: T::Operation, record: Seq<u8>) -> bool {
    &&& record.len() > 0
    &&& record.last() == NEWLINE
    &&& encodes_to(op, record.drop_last())
}

/// `checkpoint` captures `state` under its identifier.
pub open spec fn captures<T: Persistable>(state: T, checkpoint: CheckpointView) -> bool {
    &&& checkpoint.name == snapshot_name(checkpoint.id)
    &&& encodes_to(state, checkpoint.contents)
}

/// The state that an attempt to open ended in, or its failure.
pub open spec fn state_of<T: Persistable>(opened: Result<Persist<T>, PersistError>) -> Result<
    T,
    PersistError,
> {
    match opened {
        Ok(engine) => Ok(engine@.state),
        Err(e) => Err(e),
    }
}

impl<T: Persistable> Persist<T> {
    /// Recovers the instance that is persisted in the directory `path`.
    ///
    /// `log` is what reading the directory's log gave. `snapshot` is what
    /// reading the snapshot that the log names last gave (see
    /// `snapshot_to_read`); it is not looked at where the log names none.
    /// After success the caller keeps appending to the same log.
    pub fn open(path: String, log: ReadOutcome, snapshot: ReadOutcome) -> (opened: Result<
        Self,
        PersistError,
    >)
        ensures
            recovers(log@, snapshot@, state_of(opened)),
            opened matches Ok(engine) ==> engine@.path == path@,
    {
        match recover::<T>(log, snapshot) {
            Ok(state) => Ok(Persist { state, path }),
            Err(e) => Err(e),
        }
    }

    /// Starts a fresh instance in the directory `path`, with the default state.
    ///
    /// The caller creates the directory and its log where they are missing.
    /// A log that is there already is neither read nor emptied: what is
    /// appended from now on follows records that this instance knows nothing of.
    pub fn create(path: String) -> (created: Self)
        ensures
            is_default(created@.state),
            created@.path == path@,
    {
        Persist { state: default_state::<T>(), path }
    }

    /// Recovers the instance in the directory `path`, or starts a fresh one
    /// where the directory holds no log. Every other failure to recover is
    /// handed on as it is.
    pub fn open_or_create(path: String, log: ReadOutcome, snapshot: ReadOutcome) -> (opened: Result<
        Self,
        PersistError,
    >)
        ensures
            match log@ {
                ReadView::Missing => opened matches Ok(engine) && is_default(engine@.state),
                _ => recovers(log@, snapshot@, state_of(opened)),
            },
            opened matches Ok(engine) ==> engine@.path == path@,
    {
        let fallback = path.clone();
        let ghost read = log@;
        let ghost named = snapshot@;
        let opened = Self::open(path, log, snapshot);
        proof {
            lemma_not_found_means_no_log::<T>(read, named, state_of(opened));
        }
        match opened {
            Err(PersistError::NotFound) => Ok(Self::create(fallback)),
            other => other,
        }
    }

    /// The state as it stands.
    pub fn state(&self) -> (state: &T)
        ensures
            *state == self@.state,
    {
        &self.state
    }

    /// The directory that this instance is persisted in.
    pub fn path(&self) -> (path: &String)
        ensures
            path@ == self@.path,
    {
        &self.path
    }

    /// Encodes an operation as the line that logs it.
    ///
    /// The caller appends the line to the log, forces it to stable storage,
    /// and hands the staged operation to `apply` with what came of that.
    pub fn stage(op: T::Operation) -> (staged: Result<Staged<T>, PersistError>)
        ensures
            match staged {
                Ok(staged) => staged@.operation == op && logs::<T>(op, staged@.record),
                Err(e) => e == PersistError::Encode && encoding_fails(op),
            },
    {
        match encode_value(&op) {
            Some(body) => {
                let record = terminate(body);
                proof {
                    assert(record@.drop_last() =~= body@);
                }
                Ok(Staged { op, record })
            },
            None => Err(PersistError::Encode),
        }
    }

    /// Applies a staged operation once its record is durable.
    ///
    /// Where the append or its durability barrier failed, the state is left
    /// as it was and the failure is reported.
    pub fn apply(&mut self, staged: Staged<T>, written: WriteOutcome) -> (applied: Result<
        T::ApplyResult,
        PersistError,
    >)
        ensures
            final(self)@.path == old(self)@.path,
            match written {
                WriteOutcome::Failed => {
                    &&& applied matches Err(e) && e == PersistError::Io
                    &&& final(self)@.state == old(self)@.state
                },
                WriteOutcome::Durable => {
                    &&& applied matches Ok(result) && applies(
                        old(self)@.state,
                        staged@.operation,
                        final(self)@.state,
                        result,
                    )
                },
            },
    {
        match written {
            WriteOutcome::Failed => Err(PersistError::Io),
            WriteOutcome::Durable => {
                // `transition` takes the state by value: a default state
                // stands in its place until the new state is put back.
                let mut current = default_state::<T>();
                core::mem::swap(&mut self.state, &mut current);
                let (next, result) = transition(current, staged.op);
                self.state = next;
                Ok(result)
            },
        }
    }

    /// Captures the state in a checkpoint under the given identifier.
    ///
    /// The caller writes the snapshot, forces it to stable storage, and hands
    /// what came of that to `Checkpoint::seal` for the marker to append.
    pub fn snapshot_as(&self, id: Vec<u8>) -> (checkpoint: Result<Checkpoint, PersistError>)
        ensures
            match checkpoint {
                Ok(checkpoint) => checkpoint@.id == id@ && captures(self@.state, checkpoint@),
                Err(e) => e == PersistError::Encode && encoding_fails(self@.state),
            },
    {
        match encode_value(&self.state) {
            Some(contents) => {
                let name = name_snapshot(id.as_slice());
                Ok(Checkpoint::new(id, name, contents))
            },
            None => Err(PersistError::Encode),
        }
    }

    /// Captures the state in a checkpoint identified by a reading of the clock.
    ///
    /// `now` is what reading the clock gave. Where it gave nothing, or a
    /// moment that cannot be written out, there is no identifier and no
    /// checkpoint.
    pub fn snapshot_at(&self, now: Option<Moment>) -> (checkpoint: Result<Checkpoint, PersistError>)
        ensures
            match now {
                Some(moment) if identifier(moment) is Some => match checkpoint {
                    Ok(checkpoint) => {
                        &&& Some(checkpoint@.id) == identifier(moment)
                        &&& timestamp_shaped(checkpoint@.id)
                        &&& captures(self@.state, checkpoint@)
                    },
                    Err(e) => e == PersistError::Encode && encoding_fails(self@.state),
                },
                _ => checkpoint matches Err(e) && e == PersistError::Clock,
            },
    {
        let id = match now {
            Some(moment) => identify(moment),
            None => None,
        };
        match id {
            Some(id) => self.snapshot_as(id),
            None => Err(PersistError::Clock),
        }
    }

    /// Captures the state in a checkpoint identified by the current time.
    ///
    /// The identifier is a reading of the clock written out. Nothing makes
    /// two readings differ: a checkpoint taken at the reading of an earlier
    /// one carries its name.
    pub fn snapshot(&self) -> (checkpoint: Result<Checkpoint, PersistError>)
        ensures
            match checkpoint {
                Ok(checkpoint) => {
                    &&& exists|moment: Moment|
                        moment.nanos < 1_000_000_000 && #[trigger] identifier(moment) == Some(
                            checkpoint@.id,
                        )
                    &&& timestamp_shaped(checkpoint@.id)
                    &&& !checkpoint@.id.contains(NEWLINE)
                    &&& captures(self@.state, checkpoint@)
                },
                Err(e) => e == PersistError::Clock || (e == PersistError::Encode && encoding_fails(
                    self@.state,
                )),
            },
    {
        let now = read_clock();
        let checkpoint = self.snapshot_at(now);
        proof {
            if checkpoint is Ok {
                assert(identifier(now->0) == Some(checkpoint->Ok_0@.id));
            }
        }
        checkpoint
    }
}

} // verus!
