//! What holds of the engine for every state that keeps its side of the bargain.
//!
//! The contracts of the engine say which outcomes a call can have. For a
//! state whose methods are functions of their arguments, and whose encodings
//! decode to what was encoded and respect the layout of the log, that leaves
//! one outcome, and the laws below say which.

use vstd::prelude::*;
use crate::contract::{Codec, Persistable, applies, decodes_to, encodes_to, is_default};
use crate::engine::{captures, logs};
use crate::error::PersistError;
use crate::records::{
    NEWLINE, closed, closed_lines, is_marker, last_marker, lemma_last_marker,
    lemma_last_marker_after, lemma_last_marker_kept, lemma_lines_append, lemma_record_appended,
    lemma_snapshot_name, lemma_snapshot_name_injective, open_line, records, single_record,
};
use crate::recovery::{opens, recovers, replays};
use crate::storage::{CheckpointView, Directory, ReadView, named_snapshot};

verus! {

/// Decoding is a function of the bytes, and what was encoded decodes to itself.
pub open spec fn lossless<C: Codec>() -> bool {
    &&& forall|bytes: Seq<u8>, a: Option<C>, b: Option<C>|
        #[trigger] decodes_to(bytes, a) && #[trigger] decodes_to(bytes, b) ==> a == b
    &&& forall|value: C, bytes: Seq<u8>, decoded: Option<C>|
        #[trigger] encodes_to(value, bytes) && #[trigger] decodes_to(bytes, decoded) ==> decoded
            == Some(value)
}

/// The state keeps its side: there is one default state, applying an
/// operation to a state leaves one state, states and operations are encoded
/// without loss, and the encoding of an operation can stand as one record.
pub open spec fn conforming<T: Persistable>() -> bool {
    &&& forall|a: T, b: T| #[trigger] is_default(a) && #[trigger] is_default(b) ==> a == b
    &&& forall|state: T, op: T::Operation, n1: T, r1: T::ApplyResult, n2: T, r2: T::ApplyResult|
        #[trigger] applies(state, op, n1, r1) && #[trigger] applies(state, op, n2, r2) ==> n1 == n2
    &&& lossless::<T>()
    &&& lossless::<T::Operation>()
    &&& forall|op: T::Operation, body: Seq<u8>| #[trigger]
        encodes_to(op, body) ==> single_record(body)
}

/// Applying `ops` in order, in memory, may lead from `start` to `end`.
pub open spec fn leads<T: Persistable>(start: T, ops: Seq<T::Operation>, end: T) -> bool
    decreases ops.len(),
{
    if ops.len() == 0 {
        end == start
    } else {
        exists|before: T, result: T::ApplyResult|
            leads(start, ops.drop_last(), before) && #[trigger] applies(
                before,
                ops.last(),
                end,
                result,
            )
    }
}

/// `log` may be what logging `ops` in order has appended to an empty log.
pub open spec fn journals<T: Persistable>(ops: Seq<T::Operation>, log: Seq<u8>) -> bool
    decreases ops.len(),
{
    if ops.len() == 0 {
        log.len() == 0
    } else {
        exists|before: Seq<u8>, record: Seq<u8>|
            journals::<T>(ops.drop_last(), before) && #[trigger] logs::<T>(ops.last(), record)
                && log == #[trigger] (before + record)
    }
}

/// A replay of lines has one outcome.
pub proof fn lemma_replay_determined<T: Persistable>(
    base: T,
    lines: Seq<Seq<u8>>,
    first: Result<T, PersistError>,
    second: Result<T, PersistError>,
)
    requires
        conforming::<T>(),
        replays(base, lines, first),
        replays(base, lines, second),
    ensures
        first == second,
    decreases lines.len(),
{
    if lines.len() > 0 {
        let head = lines.first();
        let failed = Err::<T, PersistError>(PersistError::Decode);
        if decodes_to::<T::Operation>(head, None) && first == failed {
            if !(decodes_to::<T::Operation>(head, None) && second == failed) {
                let (op, next, result) = choose|op: T::Operation, next: T, result: T::ApplyResult|
                    decodes_to(head, Some(op)) && #[trigger] applies(base, op, next, result)
                        && replays(next, lines.skip(1), second);
                assert(None::<T::Operation> == Some(op));
            }
        } else {
            let (first_op, first_next, first_result) = choose|op: T::Operation, next: T, result: T::ApplyResult|
                decodes_to(head, Some(op)) && #[trigger] applies(base, op, next, result) && replays(
                    next,
                    lines.skip(1),
                    first,
                );
            if decodes_to::<T::Operation>(head, None) && second == failed {
                assert(None::<T::Operation> == Some(first_op));
            } else {
                let (second_op, second_next, second_result) = choose|
                    op: T::Operation,
                    next: T,
                    result: T::ApplyResult,
                |
                    decodes_to(head, Some(op)) && #[trigger] applies(base, op, next, result)
                        && replays(next, lines.skip(1), second);
                assert(Some(first_op) == Some(second_op));
                assert(first_next == second_next);
                lemma_replay_determined(first_next, lines.skip(1), first, second);
            }
        }
    }
}

/// A replay of lines passes through an outcome of replaying the lines it
/// starts with: it goes on from the state they lead to, or fails as they do.
pub proof fn lemma_replay_splits<T: Persistable>(
    base: T,
    front: Seq<Seq<u8>>,
    back: Seq<Seq<u8>>,
    outcome: Result<T, PersistError>,
) -> (midway: Result<T, PersistError>)
    requires
        replays(base, front + back, outcome),
    ensures
        replays(base, front, midway),
        match midway {
            Ok(state) => replays(state, back, outcome),
            Err(e) => outcome == Err::<T, PersistError>(e),
        },
    decreases front.len(),
{
    let all = front + back;
    if front.len() == 0 {
        assert(all =~= back);
        Ok(base)
    } else {
        let head = front.first();
        assert(all.first() == head);
        assert(all.skip(1) =~= front.skip(1) + back);
        let failed = Err::<T, PersistError>(PersistError::Decode);
        if decodes_to::<T::Operation>(head, None) && outcome == failed {
            failed
        } else {
            let (op, next, result) = choose|op: T::Operation, next: T, result: T::ApplyResult|
                decodes_to(head, Some(op)) && #[trigger] applies(base, op, next, result) && replays(
                    next,
                    all.skip(1),
                    outcome,
                );
            let midway = lemma_replay_splits(next, front.skip(1), back, outcome);
            assert(replays(base, front, midway));
            midway
        }
    }
}

/// Replaying the one record of an operation applies that operation.
pub proof fn lemma_replay_one<T: Persistable>(
    state: T,
    body: Seq<u8>,
    op: T::Operation,
    next: T,
    result: T::ApplyResult,
    outcome: Result<T, PersistError>,
)
    requires
        conforming::<T>(),
        encodes_to(op, body),
        applies(state, op, next, result),
        replays(state, seq![body], outcome),
    ensures
        outcome == Ok::<T, PersistError>(next),
{
    let lines = seq![body];
    assert(lines.first() == body);
    assert(lines.skip(1) =~= Seq::<Seq<u8>>::empty());
    if decodes_to::<T::Operation>(body, None) {
        assert(None::<T::Operation> == Some(op));
    }
    let (found, after, returned) = choose|found: T::Operation, after: T, returned: T::ApplyResult|
        decodes_to(body, Some(found)) && #[trigger] applies(state, found, after, returned)
            && replays(after, lines.skip(1), outcome);
    assert(Some(found) == Some(op));
    assert(after == next);
}

/// What a journal of operations looks like as a log: every line is closed,
/// and no record is a checkpoint marker.
pub proof fn lemma_journal_shape<T: Persistable>(ops: Seq<T::Operation>, log: Seq<u8>)
    requires
        conforming::<T>(),
        journals::<T>(ops, log),
    ensures
        closed(log),
        records(log).len() == ops.len(),
        forall|j: int| 0 <= j < records(log).len() ==> !is_marker(#[trigger] records(log)[j]),
    decreases ops.len(),
{
    if ops.len() > 0 {
        let (before, record) = choose|before: Seq<u8>, record: Seq<u8>|
            journals::<T>(ops.drop_last(), before) && #[trigger] logs::<T>(ops.last(), record)
                && log == #[trigger] (before + record);
        let body = record.drop_last();
        assert(record =~= body.push(NEWLINE));
        lemma_journal_shape::<T>(ops.drop_last(), before);
        lemma_record_appended(before, body);
        assert forall|j: int| 0 <= j < records(log).len() implies !is_marker(
            #[trigger] records(log)[j],
        ) by {
            if j < records(before).len() {
                assert(records(log)[j] == records(before)[j]);
            }
        }
    } else {
        assert(log =~= Seq::<u8>::empty());
        assert(records(log) =~= Seq::<Seq<u8>>::empty());
    }
}

/// Replaying a journal of operations leads where the operations lead in memory.
pub proof fn lemma_journal_replays<T: Persistable>(
    start: T,
    ops: Seq<T::Operation>,
    log: Seq<u8>,
    end: T,
    outcome: Result<T, PersistError>,
)
    requires
        conforming::<T>(),
        leads(start, ops, end),
        journals::<T>(ops, log),
        replays(start, records(log), outcome),
    ensures
        outcome == Ok::<T, PersistError>(end),
    decreases ops.len(),
{
    if ops.len() == 0 {
        assert(log =~= Seq::<u8>::empty());
        assert(records(log) =~= Seq::<Seq<u8>>::empty());
    } else {
        let (before, record) = choose|before: Seq<u8>, record: Seq<u8>|
            journals::<T>(ops.drop_last(), before) && #[trigger] logs::<T>(ops.last(), record)
                && log == #[trigger] (before + record);
        let (previous, result) = choose|previous: T, result: T::ApplyResult|
            leads(start, ops.drop_last(), previous) && #[trigger] applies(
                previous,
                ops.last(),
                end,
                result,
            );
        let body = record.drop_last();
        assert(record =~= body.push(NEWLINE));
        lemma_journal_shape::<T>(ops.drop_last(), before);
        lemma_record_appended(before, body);
        assert(records(log) =~= records(before) + seq![body]);
        let midway = lemma_replay_splits(start, records(before), seq![body], outcome);
        lemma_journal_replays(start, ops.drop_last(), before, previous, midway);
        lemma_replay_one(previous, body, ops.last(), end, result, outcome);
    }
}

/// Lines that hold no checkpoint marker have no last one.
pub proof fn lemma_no_marker(lines: Seq<Seq<u8>>)
    requires
        forall|j: int| 0 <= j < lines.len() ==> !is_marker(#[trigger] lines[j]),
    ensures
        last_marker(lines) is None,
{
    lemma_last_marker(lines);
}

/// The records of a log are its lines: none is empty, and none holds a line
/// terminator.
pub proof fn law_records_are_lines(log: Seq<u8>)
    ensures
        !open_line(log).contains(NEWLINE),
        forall|i: int|
            0 <= i < records(log).len() ==> (#[trigger] records(log)[i]).len() > 0
                && !records(log)[i].contains(NEWLINE),
    decreases log.len(),
{
    if log.len() > 0 {
        let front = log.drop_last();
        law_records_are_lines(front);
        if log.last() != NEWLINE {
            let line = open_line(log);
            assert forall|k: int| 0 <= k < line.len() implies line[k] != NEWLINE by {
                if k < line.len() - 1 {
                    assert(open_line(front).contains(open_line(front)[k]));
                }
            }
        }
        assert forall|i: int| 0 <= i < closed_lines(log).len() implies (#[trigger] closed_lines(
            log,
        )[i]).len() > 0 && !closed_lines(log)[i].contains(NEWLINE) by {
            if i < closed_lines(front).len() {
                assert(closed_lines(log)[i] == records(front)[i]);
            } else {
                assert(closed_lines(log)[i] == open_line(front));
            }
        }
    }
}

/// The directory `dir` persists `state`: whatever opening it yields is that state.
pub open spec fn persists<T: Persistable>(dir: Directory, state: T) -> bool {
    forall|outcome: Result<T, PersistError>| #[trigger]
        opens(dir, outcome) ==> outcome == Ok::<T, PersistError>(state)
}

/// Recovery is a function of what was read: from one log and one snapshot it
/// has one outcome.
pub proof fn law_recovery_is_determined<T: Persistable>(
    log: ReadView,
    snapshot: ReadView,
    first: Result<T, PersistError>,
    second: Result<T, PersistError>,
)
    requires
        conforming::<T>(),
        recovers(log, snapshot, first),
        recovers(log, snapshot, second),
    ensures
        first == second,
{
    if let ReadView::Found(bytes) = log {
        let lines = records(bytes);
        match last_marker(lines) {
            None => {
                let a = choose|base: T| #[trigger] is_default(base) && replays(base, lines, first);
                let b = choose|base: T| #[trigger] is_default(base) && replays(base, lines, second);
                assert(a == b);
                lemma_replay_determined(a, lines, first, second);
            },
            Some(i) => {
                if let ReadView::Found(contents) = snapshot {
                    let tail = lines.skip(i + 1);
                    let failed = Err::<T, PersistError>(PersistError::Decode);
                    if decodes_to::<T>(contents, None) && first == failed {
                        if !(decodes_to::<T>(contents, None) && second == failed) {
                            let b = choose|base: T| #[trigger]
                                decodes_to(contents, Some(base)) && replays(base, tail, second);
                            assert(None::<T> == Some(b));
                        }
                    } else {
                        let a = choose|base: T| #[trigger]
                            decodes_to(contents, Some(base)) && replays(base, tail, first);
                        if decodes_to::<T>(contents, None) && second == failed {
                            assert(None::<T> == Some(a));
                        } else {
                            let b = choose|base: T| #[trigger]
                                decodes_to(contents, Some(base)) && replays(base, tail, second);
                            assert(Some(a) == Some(b));
                            lemma_replay_determined(a, tail, first, second);
                        }
                    }
                }
            },
        }
    }
}

/// Opening a directory whose log is empty yields a default state.
pub proof fn law_empty_log_opens_default<T: Persistable>(
    dir: Directory,
    outcome: Result<T, PersistError>,
)
    requires
        dir.log == Some(Seq::<u8>::empty()),
        opens(dir, outcome),
    ensures
        outcome matches Ok(state) && is_default(state),
{
    let log = Seq::<u8>::empty();
    assert(records(log) =~= Seq::<Seq<u8>>::empty());
}

/// Opening a directory that was created from nothing yields a default state.
pub proof fn law_fresh_directory_opens_default<T: Persistable>(outcome: Result<T, PersistError>)
    requires
        opens(Directory::absent().created(), outcome),
    ensures
        outcome matches Ok(state) && is_default(state),
{
    law_empty_log_opens_default(Directory::absent().created(), outcome);
}

/// Whatever operations were applied to a fresh instance, each logged before
/// it was applied, the directory persists the state that the same operations
/// lead to in memory from the default state.
pub proof fn law_round_trip<T: Persistable>(
    dir: Directory,
    start: T,
    ops: Seq<T::Operation>,
    end: T,
)
    requires
        conforming::<T>(),
        is_default(start),
        leads(start, ops, end),
        dir.log matches Some(log) && journals::<T>(ops, log),
    ensures
        persists(dir, end),
{
    let log = dir.log->0;
    lemma_journal_shape::<T>(ops, log);
    lemma_no_marker(records(log));
    assert forall|outcome: Result<T, PersistError>| #[trigger] opens(dir, outcome) implies outcome
        == Ok::<T, PersistError>(end) by {
        let base = choose|base: T| #[trigger]
            is_default(base) && replays(base, records(log), outcome);
        assert(base == start);
        lemma_journal_replays(start, ops, log, end, outcome);
    }
}

/// Once the record of an operation is in the log, the directory persists the
/// state with that operation applied, whether or not the instance that
/// logged it came to apply it in memory: what is durable comes before what
/// is observed.
pub proof fn law_logged_operation_survives<T: Persistable>(
    dir: Directory,
    state: T,
    op: T::Operation,
    record: Seq<u8>,
    next: T,
    result: T::ApplyResult,
)
    requires
        conforming::<T>(),
        dir.log is Some,
        dir.well_formed(),
        persists(dir, state),
        logs::<T>(op, record),
        applies(state, op, next, result),
    ensures
        persists(dir.appended(record), next),
{
    let log = dir.log->0;
    let body = record.drop_last();
    let lines = records(log);
    assert(record =~= body.push(NEWLINE));
    lemma_record_appended(log, body);
    lemma_last_marker_kept(lines, body);
    lemma_last_marker(lines);
    let after = dir.appended(record);
    assert forall|outcome: Result<T, PersistError>| #[trigger] opens(after, outcome) implies outcome
        == Ok::<T, PersistError>(next) by {
        match last_marker(lines) {
            None => {
                let base = choose|base: T| #[trigger]
                    is_default(base) && replays(base, lines.push(body), outcome);
                assert(lines.push(body) =~= lines + seq![body]);
                let midway = lemma_replay_splits(base, lines, seq![body], outcome);
                assert(opens(dir, midway));
                lemma_replay_one(state, body, op, next, result, outcome);
            },
            Some(i) => {
                let tail = lines.skip(i + 1);
                assert(lines.push(body)[i] == lines[i]);
                assert(lines.push(body).skip(i + 1) =~= tail + seq![body]);
                assert(after.read_named_snapshot() == dir.read_named_snapshot());
                match dir.read_named_snapshot() {
                    ReadView::Found(contents) => {
                        if decodes_to::<T>(contents, None) && outcome == Err::<T, PersistError>(
                            PersistError::Decode,
                        ) {
                            assert(opens(dir, outcome));
                        } else {
                            let base = choose|base: T| #[trigger]
                                decodes_to(contents, Some(base)) && replays(
                                    base,
                                    tail + seq![body],
                                    outcome,
                                );
                            let midway = lemma_replay_splits(base, tail, seq![body], outcome);
                            assert(opens(dir, midway));
                            lemma_replay_one(state, body, op, next, result, outcome);
                        }
                    },
                    _ => {
                        assert(opens(dir, outcome));
                    },
                }
            },
        }
    }
}

/// After a checkpoint of `state` and the operations logged since, the
/// directory persists what those operations make of that state. Opening it
/// starts from the snapshot and replays the records after the marker, and
/// those alone: whatever the log held before the checkpoint, decodable or
/// not, has no part in the outcome.
pub proof fn law_checkpoint_bounds_replay<T: Persistable>(
    dir: Directory,
    state: T,
    checkpoint: CheckpointView,
    ops: Seq<T::Operation>,
    tail: Seq<u8>,
    end: T,
)
    requires
        conforming::<T>(),
        dir.log is Some,
        dir.well_formed(),
        captures(state, checkpoint),
        !checkpoint.id.contains(NEWLINE),
        leads(state, ops, end),
        journals::<T>(ops, tail),
    ensures
        dir.checkpointed(checkpoint).appended(tail).read_named_snapshot() == ReadView::Found(
            checkpoint.contents,
        ),
        persists(dir.checkpointed(checkpoint).appended(tail), end),
{
    let log = dir.log->0;
    let name = checkpoint.name;
    let contents = checkpoint.contents;
    let after = dir.checkpointed(checkpoint).appended(tail);
    lemma_snapshot_name(checkpoint.id);
    lemma_record_appended(log, name);
    lemma_lines_append(log + name.push(NEWLINE), tail);
    lemma_journal_shape::<T>(ops, tail);
    lemma_last_marker_after(records(log), name, records(tail));
    let lines = records(log).push(name) + records(tail);
    let at = records(log).len() as int;
    assert(after.log == Some(log + name.push(NEWLINE) + tail));
    assert(lines[at] == name);
    assert(lines.skip(at + 1) =~= records(tail));
    assert(after.read_named_snapshot() == ReadView::Found(contents));
    assert forall|outcome: Result<T, PersistError>| #[trigger] opens(after, outcome) implies outcome
        == Ok::<T, PersistError>(end) by {
        if decodes_to::<T>(contents, None) {
            assert(None::<T> == Some(state));
        }
        let base = choose|base: T| #[trigger]
            decodes_to(contents, Some(base)) && replays(base, records(tail), outcome);
        assert(Some(base) == Some(state));
        lemma_journal_replays(state, ops, tail, end, outcome);
    }
}

/// A snapshot that no marker names yet changes nothing: where writing it is
/// as far as a checkpoint got, opening the directory goes as it did before.
pub proof fn law_unsealed_snapshot_changes_nothing<T: Persistable>(
    dir: Directory,
    name: Seq<u8>,
    contents: Seq<u8>,
    outcome: Result<T, PersistError>,
)
    requires
        named_snapshot(dir.read_log()) != Some(name),
    ensures
        opens(dir.with_snapshot(name, contents), outcome) <==> opens(dir, outcome),
{
}

/// Two checkpoints whose identifiers differ are kept under different names:
/// writing the second leaves the first as it was, and each snapshot still
/// decodes to the state that it captured.
pub proof fn law_distinct_checkpoints_coexist<T: Persistable>(
    dir: Directory,
    earlier: T,
    first: CheckpointView,
    later: T,
    second: CheckpointView,
)
    requires
        conforming::<T>(),
        captures(earlier, first),
        captures(later, second),
        first.id != second.id,
    ensures
        first.name != second.name,
        dir.checkpointed(first).checkpointed(second).read_snapshot(first.name) == ReadView::Found(
            first.contents,
        ),
        dir.checkpointed(first).checkpointed(second).read_snapshot(second.name)
            == ReadView::Found(second.contents),
        forall|decoded: Option<T>| #[trigger]
            decodes_to(first.contents, decoded) ==> decoded == Some(earlier),
        forall|decoded: Option<T>| #[trigger]
            decodes_to(second.contents, decoded) ==> decoded == Some(later),
{
    if first.name == second.name {
        lemma_snapshot_name_injective(first.id, second.id);
    }
}

/// What the engine has appended keeps the log well formed: after a fresh
/// log was created, after the record of an operation, and after the marker
/// of a checkpoint, every line of the log is closed.
pub proof fn law_log_stays_well_formed<T: Persistable>(
    dir: Directory,
    op: T::Operation,
    record: Seq<u8>,
    checkpoint: CheckpointView,
)
    requires
        dir.well_formed(),
    ensures
        dir.created().well_formed(),
        logs::<T>(op, record) ==> dir.appended(record).well_formed(),
        dir.checkpointed(checkpoint).well_formed(),
{
}

} // verus!
