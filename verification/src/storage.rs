//! What passes between the engine and the storage that its caller drives.

use vstd::prelude::*;
use crate::error::PersistError;
use crate::records::{NEWLINE, closed, last_marker, records, terminate};

verus! {

/// What came of reading a file as a whole.
#[derive(Debug)]
pub enum ReadOutcome {
    /// The file was read; these are its bytes.
    Found(Vec<u8>),
    /// There is no such file.
    Missing,
    /// The file could not be read.
    Failed,
}

/// A `ReadOutcome` with the bytes as a sequence.
pub enum ReadView {
    Found(Seq<u8>),
    Missing,
    Failed,
}

impl View for ReadOutcome {
    type V = ReadView;

    open spec fn view(&self) -> ReadView {
        match self {
            ReadOutcome::Found(bytes) => ReadView::Found(bytes@),
            ReadOutcome::Missing => ReadView::Missing,
            ReadOutcome::Failed => ReadView::Failed,
        }
    }
}

/// What came of appending a record to the log and forcing it to stable storage.
#[derive(Clone, Copy, Debug, PartialEq, Eq, Structural)]
pub enum WriteOutcome {
    /// The record is on stable storage.
    Durable,
    /// The write or the durability barrier failed.
    Failed,
}

/// A checkpoint on its way to storage: the snapshot to write, and the
/// marker that names it, which is handed out only once the snapshot is durable.
#[derive(Debug)]
pub struct Checkpoint {
    id: Vec<u8>,
    name: Vec<u8>,
    contents: Vec<u8>,
}

/// What a `Checkpoint` holds.
pub struct CheckpointView {
    /// The identifier that tells this snapshot from the others.
    pub id: Seq<u8>,
    /// The name of the snapshot's file.
    pub name: Seq<u8>,
    /// The encoded state that the file is to hold.
    pub contents: Seq<u8>,
}

impl View for Checkpoint {
    type V = CheckpointView;

    closed spec fn view(&self) -> CheckpointView {
        CheckpointView { id: self.id@, name: self.name@, contents: self.contents@ }
    }
}

impl CheckpointView {
    /// The line that names the snapshot in the log.
    pub open spec fn marker(self) -> Seq<u8> {
        self.name.push(NEWLINE)
    }
}

impl Checkpoint {
    /// A checkpoint that holds these values.
    pub(crate) fn new(id: Vec<u8>, name: Vec<u8>, contents: Vec<u8>) -> (checkpoint: Checkpoint)
        ensures
            checkpoint@ == (CheckpointView { id: id@, name: name@, contents: contents@ }),
    {
        Checkpoint { id, name, contents }
    }

    /// The identifier that tells this snapshot from the others.
    pub fn id(&self) -> (id: &Vec<u8>)
        ensures
            id@ == self@.id,
    {
        &self.id
    }

    /// The name of the file to write the snapshot to.
    pub fn name(&self) -> (name: &Vec<u8>)
        ensures
            name@ == self@.name,
    {
        &self.name
    }

    /// The encoded state that the file is to hold.
    pub fn contents(&self) -> (contents: &Vec<u8>)
        ensures
            contents@ == self@.contents,
    {
        &self.contents
    }

    /// Hands out the marker line once the snapshot is durable.
    ///
    /// `written` is what came of writing the snapshot and forcing it to stable
    /// storage. Where that failed there is no marker to append, so that the
    /// log never names a snapshot that is not there.
    pub fn seal(self, written: WriteOutcome) -> (marker: Result<Vec<u8>, PersistError>)
        ensures
            match written {
                WriteOutcome::Durable => marker matches Ok(line) && line@ == self@.marker(),
                WriteOutcome::Failed => marker matches Err(e) && e == PersistError::Io,
            },
    {
        match written {
            WriteOutcome::Durable => Ok(terminate(self.name)),
            WriteOutcome::Failed => Err(PersistError::Io),
        }
    }
}

/// The name of the snapshot that recovery from this log starts from: the
/// last checkpoint marker among its records, if there is one.
pub open spec fn named_snapshot(log: ReadView) -> Option<Seq<u8>> {
    match log {
        ReadView::Found(bytes) => match last_marker(records(bytes)) {
            Some(i) => Some(records(bytes)[i]),
            None => None,
        },
        _ => None,
    }
}

/// A persisted directory as the engine sees it: the bytes of its log, if it
/// has one, and its snapshots by name. Nothing is ever removed from it.
pub struct Directory {
    pub log: Option<Seq<u8>>,
    pub snapshots: Map<Seq<u8>, Seq<u8>>,
}

impl Directory {
    /// The directory that does not exist yet.
    pub open spec fn absent() -> Directory {
        Directory { log: None, snapshots: Map::empty() }
    }

    /// The log ends where a record ends: every line in it is closed.
    pub open spec fn well_formed(self) -> bool {
        self.log matches Some(bytes) ==> closed(bytes)
    }

    /// What reading the log yields.
    pub open spec fn read_log(self) -> ReadView {
        match self.log {
            Some(bytes) => ReadView::Found(bytes),
            None => ReadView::Missing,
        }
    }

    /// What reading the snapshot called `name` yields.
    pub open spec fn read_snapshot(self, name: Seq<u8>) -> ReadView {
        if self.snapshots.dom().contains(name) {
            ReadView::Found(self.snapshots[name])
        } else {
            ReadView::Missing
        }
    }

    /// What reading the snapshot that the log names last yields; `Missing`
    /// where the log names none.
    pub open spec fn read_named_snapshot(self) -> ReadView {
        match named_snapshot(self.read_log()) {
            Some(name) => self.read_snapshot(name),
            None => ReadView::Missing,
        }
    }

    /// The directory once it has been created: it has a log, the one it had
    /// or an empty one.
    pub open spec fn created(self) -> Directory {
        Directory {
            log: Some(
                match self.log {
                    Some(bytes) => bytes,
                    None => Seq::empty(),
                },
            ),
            snapshots: self.snapshots,
        }
    }

    /// The directory after `bytes` were appended to its log.
    pub open spec fn appended(self, bytes: Seq<u8>) -> Directory {
        Directory {
            log: Some(
                match self.log {
                    Some(log) => log + bytes,
                    None => bytes,
                },
            ),
            snapshots: self.snapshots,
        }
    }

    /// The directory after a snapshot called `name` was written.
    pub open spec fn with_snapshot(self, name: Seq<u8>, contents: Seq<u8>) -> Directory {
        Directory { log: self.log, snapshots: self.snapshots.insert(name, contents) }
    }

    /// The directory after `checkpoint` was written: its snapshot, then its marker.
    pub open spec fn checkpointed(self, checkpoint: CheckpointView) -> Directory {
        self.with_snapshot(checkpoint.name, checkpoint.contents).appended(checkpoint.marker())
    }
}

} // verus!
