//! Rebuilding a state from a log and a snapshot.

use vstd::prelude::*;
use crate::contract::{
    Persistable, applies, decode_value, decodes_to, default_state, is_default, transition,
};
use crate::error::PersistError;
use crate::records::{last_checkpoint, last_marker, records, split_records, views};
use crate::storage::{Directory, ReadOutcome, ReadView, named_snapshot};

verus! {

/// Decoding `lines` in order as operations and applying each in turn,
/// starting from `base`, may end in `outcome`: the state after the last
/// line, or the failure to decode the first line that is no operation.
pub open spec fn replays<T: Persistable>(
    base: T,
    lines: Seq<Seq<u8>>,
    outcome: Result<T, PersistError>,
) -> bool
    decreases lines.len(),
{
    if lines.len() == 0 {
        outcome == Ok::<T, PersistError>(base)
    } else {
        ||| decodes_to::<T::Operation>(lines.first(), None) && outcome == Err::<T, PersistError>(
            PersistError::Decode,
        )
        ||| exists|op: T::Operation, next: T, result: T::ApplyResult|
            decodes_to(lines.first(), Some(op)) && #[trigger] applies(base, op, next, result)
                && replays(next, lines.skip(1), outcome)
    }
}

/// Restoring the state from what reading the named snapshot gave, and
/// replaying `tail` on it, may end in `outcome`.
pub open spec fn restores<T: Persistable>(
    snapshot: ReadView,
    tail: Seq<Seq<u8>>,
    outcome: Result<T, PersistError>,
) -> bool {
    match snapshot {
        ReadView::Found(contents) => {
            ||| decodes_to::<T>(contents, None) && outcome == Err::<T, PersistError>(
                PersistError::Decode,
            )
            ||| exists|base: T| #[trigger] decodes_to(contents, Some(base)) && replays(base, tail, outcome)
        },
        _ => outcome == Err::<T, PersistError>(PersistError::Io),
    }
}

/// Recovering from what reading the log gave, and what reading the snapshot
/// that it names last gave, may end in `outcome`.
///
/// Without a log there is nothing to recover. With one, the state starts from
/// the snapshot that the last checkpoint marker names, or from the default where
/// the log holds no marker, and the records after that marker are replayed.
pub open spec fn recovers<T: Persistable>(
    log: ReadView,
    snapshot: ReadView,
    outcome: Result<T, PersistError>,
) -> bool {
    match log {
        ReadView::Missing => outcome == Err::<T, PersistError>(PersistError::NotFound),
        ReadView::Failed => outcome == Err::<T, PersistError>(PersistError::Io),
        ReadView::Found(bytes) => match last_marker(records(bytes)) {
            None => exists|base: T| #[trigger] is_default(base) && replays(base, records(bytes), outcome),
            Some(i) => restores(snapshot, records(bytes).skip(i + 1), outcome),
        },
    }
}

/// Opening the directory `dir` may end in `outcome`: the caller reads the
/// log, then the snapshot that the log names last, and recovers from both.
pub open spec fn opens<T: Persistable>(dir: Directory, outcome: Result<T, PersistError>) -> bool {
    recovers(dir.read_log(), dir.read_named_snapshot(), outcome)
}

/// A replay fails only when a line cannot be decoded.
pub proof fn lemma_replays_failure<T: Persistable>(
    base: T,
    lines: Seq<Seq<u8>>,
    outcome: Result<T, PersistError>,
)
    requires
        replays(base, lines, outcome),
    ensures
        outcome matches Err(e) ==> e == PersistError::Decode,
    decreases lines.len(),
{
    if lines.len() > 0 && !(decodes_to::<T::Operation>(lines.first(), None) && outcome == Err::<
        T,
        PersistError,
    >(PersistError::Decode)) {
        let (op, next, result) = choose|op: T::Operation, next: T, result: T::ApplyResult|
            decodes_to(lines.first(), Some(op)) && #[trigger] applies(base, op, next, result)
                && replays(next, lines.skip(1), outcome);
        lemma_replays_failure(next, lines.skip(1), outcome);
    }
}

/// Recovery reports a missing log, and nothing else, as not found.
pub proof fn lemma_not_found_means_no_log<T: Persistable>(
    log: ReadView,
    snapshot: ReadView,
    outcome: Result<T, PersistError>,
)
    requires
        recovers(log, snapshot, outcome),
    ensures
        outcome == Err::<T, PersistError>(PersistError::NotFound) <==> log is Missing,
{
    if let ReadView::Found(bytes) = log {
        let lines = records(bytes);
        match last_marker(lines) {
            None => {
                let base = choose|base: T| #[trigger] is_default(base) && replays(base, lines, outcome);
                lemma_replays_failure(base, lines, outcome);
            },
            Some(i) => {
                if let ReadView::Found(contents) = snapshot {
                    let failed = Err::<T, PersistError>(PersistError::Decode);
                    if !(decodes_to::<T>(contents, None) && outcome == failed) {
                        let base = choose|base: T| #[trigger]
                            decodes_to(contents, Some(base)) && replays(
                                base,
                                lines.skip(i + 1),
                                outcome,
                            );
                        lemma_replays_failure(base, lines.skip(i + 1), outcome);
                    }
                }
            },
        }
    }
}

/// Replays the records from position `from` on.
pub fn replay<T: Persistable>(base: T, lines: &Vec<Vec<u8>>, from: usize) -> (outcome: Result<
    T,
    PersistError,
>)
    requires
        from <= lines.len(),
    ensures
        replays(base, views(lines@).skip(from as int), outcome),
{
    let ghost all = views(lines@);
    let mut state = base;
    let mut i: usize = from;
    while i < lines.len()
        invariant
            from <= i <= lines.len(),
            all == views(lines@),
            forall|o: Result<T, PersistError>| #[trigger]
                replays(state, all.skip(i as int), o) ==> replays(base, all.skip(from as int), o),
        decreases lines.len() - i,
    {
        let ghost rest = all.skip(i as int);
        let ghost before = state;
        proof {
            assert(rest.skip(1) =~= all.skip(i + 1));
        }
        match decode_value::<T::Operation>(lines[i].as_slice()) {
            None => {
                proof {
                    assert(replays(before, rest, Err::<T, PersistError>(PersistError::Decode)));
                }
                return Err(PersistError::Decode);
            },
            Some(op) => {
                let (next, result) = transition(state, op);
                proof {
                    assert(applies(before, op, next, result));
                    assert forall|o: Result<T, PersistError>| #[trigger]
                        replays(next, all.skip(i + 1), o) implies replays(
                        base,
                        all.skip(from as int),
                        o,
                    ) by {
                        assert(replays(before, rest, o));
                    }
                }
                state = next;
            },
        }
        i += 1;
    }
    proof {
        assert(replays(state, all.skip(i as int), Ok::<T, PersistError>(state)));
    }
    Ok(state)
}

/// The name of the snapshot that recovery from this log will ask for, if any.
///
/// The caller reads the log first, then the snapshot that this names, and
/// hands both to `recover`.
pub fn snapshot_to_read(log: &ReadOutcome) -> (name: Option<Vec<u8>>)
    ensures
        match name {
            Some(name) => named_snapshot(log@) == Some(name@),
            None => named_snapshot(log@) is None,
        },
{
    match log {
        ReadOutcome::Found(bytes) => {
            let mut lines = split_records(bytes.as_slice());
            match last_checkpoint(&lines) {
                Some(i) => {
                    let name = lines.swap_remove(i);
                    Some(name)
                },
                None => None,
            }
        },
        _ => None,
    }
}

/// Rebuilds the state from what was read.
pub fn recover<T: Persistable>(log: ReadOutcome, snapshot: ReadOutcome) -> (outcome: Result<
    T,
    PersistError,
>)
    ensures
        recovers(log@, snapshot@, outcome),
{
    let bytes = match log {
        ReadOutcome::Found(bytes) => bytes,
        ReadOutcome::Missing => {
            return Err(PersistError::NotFound);
        },
        ReadOutcome::Failed => {
            return Err(PersistError::Io);
        },
    };
    let lines = split_records(bytes.as_slice());
    match last_checkpoint(&lines) {
        None => {
            let base = default_state::<T>();
            proof {
                assert(views(lines@).skip(0) =~= views(lines@));
            }
            replay(base, &lines, 0)
        },
        Some(i) => match snapshot {
            ReadOutcome::Found(contents) => match decode_value::<T>(contents.as_slice()) {
                Some(base) => replay(base, &lines, i + 1),
                None => Err(PersistError::Decode),
            },
            _ => Err(PersistError::Io),
        },
    }
}

} // verus!
