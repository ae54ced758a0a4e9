//! The layout of the log: records, one per line, and checkpoint markers.

use vstd::prelude::*;

verus! {

/// The line terminator that ends every record.
pub const NEWLINE: u8 = 10;

/// The separator between the reserved tag and the identifier in a snapshot's name.
pub const DOT: u8 = 46;

/// The reserved tag, `checkpoint`, that a marker line starts with.
pub open spec fn checkpoint_tag() -> Seq<u8> {
    seq![99u8, 104u8, 101u8, 99u8, 107u8, 112u8, 111u8, 105u8, 110u8, 116u8]
}

/// The bytes of `log` after its last line terminator: the line that is still open.
pub open spec fn open_line(log: Seq<u8>) -> Seq<u8>
    decreases log.len(),
{
    if log.len() == 0 || log.last() == NEWLINE {
        Seq::empty()
    } else {
        open_line(log.drop_last()).push(log.last())
    }
}

/// The non-empty lines of `log` that a line terminator has closed, in order.
pub open spec fn closed_lines(log: Seq<u8>) -> Seq<Seq<u8>>
    decreases log.len(),
{
    if log.len() == 0 {
        Seq::empty()
    } else if log.last() == NEWLINE && open_line(log.drop_last()).len() > 0 {
        closed_lines(log.drop_last()).push(open_line(log.drop_last()))
    } else {
        closed_lines(log.drop_last())
    }
}

/// The records of `log`: its non-empty lines in order, the last one whether or
/// not a line terminator follows it.
pub open spec fn records(log: Seq<u8>) -> Seq<Seq<u8>> {
    if open_line(log).len() > 0 {
        closed_lines(log).push(open_line(log))
    } else {
        closed_lines(log)
    }
}

/// Whether `line` is a checkpoint marker: whether it starts with the reserved tag.
pub open spec fn is_marker(line: Seq<u8>) -> bool {
    checkpoint_tag().is_prefix_of(line)
}

/// The position of the last checkpoint marker among `lines`, if there is one.
pub open spec fn last_marker(lines: Seq<Seq<u8>>) -> Option<int>
    decreases lines.len(),
{
    if lines.len() == 0 {
        None
    } else if is_marker(lines.last()) {
        Some(lines.len() - 1)
    } else {
        last_marker(lines.drop_last())
    }
}

/// The last marker is a marker, and no marker follows it.
pub proof fn lemma_last_marker(lines: Seq<Seq<u8>>)
    ensures
        match last_marker(lines) {
            Some(i) => {
                &&& 0 <= i < lines.len()
                &&& is_marker(lines[i])
                &&& forall|j: int| i < j < lines.len() ==> !is_marker(#[trigger] lines[j])
            },
            None => forall|j: int| 0 <= j < lines.len() ==> !is_marker(#[trigger] lines[j]),
        },
    decreases lines.len(),
{
    if lines.len() > 0 && !is_marker(lines.last()) {
        let front = lines.drop_last();
        lemma_last_marker(front);
        assert forall|j: int| 0 <= j < lines.len() implies lines[j] == if j < front.len() {
            front[j]
        } else {
            lines.last()
        } by {}
    }
}

/// The name of the snapshot with identifier `id`: the tag, a dot, the identifier.
/// The marker line in the log and the snapshot's file both carry it.
pub open spec fn snapshot_name(id: Seq<u8>) -> Seq<u8> {
    checkpoint_tag().push(DOT) + id
}

/// Whether `body` can stand as one operation record: not empty, on one line,
/// and not taken for a checkpoint marker.
pub open spec fn single_record(body: Seq<u8>) -> bool {
    &&& body.len() > 0
    &&& !body.contains(NEWLINE)
    &&& !is_marker(body)
}

/// Whether `log` ends where a line ends: it is empty or a line terminator is its last byte.
pub open spec fn closed(log: Seq<u8>) -> bool {
    log.len() == 0 || log.last() == NEWLINE
}

/// Appending to a log whose lines are all closed adds lines and changes none.
pub proof fn lemma_lines_append(log: Seq<u8>, more: Seq<u8>)
    requires
        closed(log),
    ensures
        open_line(log + more) == open_line(more),
        closed_lines(log + more) == closed_lines(log) + closed_lines(more),
        records(log + more) == records(log) + records(more),
    decreases more.len(),
{
    if more.len() > 0 {
        let front = more.drop_last();
        lemma_lines_append(log, front);
        assert((log + more).drop_last() =~= log + front);
    }
}

/// A line without a terminator stays open as a whole, and closes no line.
pub proof fn lemma_unterminated(line: Seq<u8>)
    requires
        !line.contains(NEWLINE),
    ensures
        open_line(line) == line,
        closed_lines(line) == Seq::<Seq<u8>>::empty(),
    decreases line.len(),
{
    if line.len() > 0 {
        let front = line.drop_last();
        assert(!front.contains(NEWLINE));
        lemma_unterminated(front);
    }
}

/// A log that holds one terminated line holds that line as its one record.
pub proof fn lemma_one_record(body: Seq<u8>)
    requires
        body.len() > 0,
        !body.contains(NEWLINE),
    ensures
        records(body.push(NEWLINE)) == seq![body],
        closed(body.push(NEWLINE)),
{
    lemma_unterminated(body);
    let line = body.push(NEWLINE);
    assert(line.drop_last() =~= body);
}

/// A record appended to a log whose lines are all closed becomes its last record.
pub proof fn lemma_record_appended(log: Seq<u8>, body: Seq<u8>)
    requires
        closed(log),
        body.len() > 0,
        !body.contains(NEWLINE),
    ensures
        records(log + body.push(NEWLINE)) == records(log).push(body),
        closed(log + body.push(NEWLINE)),
{
    lemma_one_record(body);
    lemma_lines_append(log, body.push(NEWLINE));
}

/// The name of a snapshot is a checkpoint marker, and it stands on one line
/// where its identifier does.
pub proof fn lemma_snapshot_name(id: Seq<u8>)
    ensures
        is_marker(snapshot_name(id)),
        snapshot_name(id).len() > 0,
        !id.contains(NEWLINE) ==> !snapshot_name(id).contains(NEWLINE),
{
    let name = snapshot_name(id);
    if !id.contains(NEWLINE) {
        assert forall|i: int| 0 <= i < name.len() implies name[i] != NEWLINE by {}
    }
}

/// Snapshots with different identifiers have different names.
pub proof fn lemma_snapshot_name_injective(a: Seq<u8>, b: Seq<u8>)
    requires
        snapshot_name(a) == snapshot_name(b),
    ensures
        a == b,
{
    let prefix = checkpoint_tag().push(DOT);
    assert(a =~= snapshot_name(a).skip(prefix.len() as int));
    assert(b =~= snapshot_name(b).skip(prefix.len() as int));
}

/// The last marker of lines that end in a marker followed by lines that are none.
pub proof fn lemma_last_marker_after(before: Seq<Seq<u8>>, marker: Seq<u8>, after: Seq<Seq<u8>>)
    requires
        is_marker(marker),
        forall|j: int| 0 <= j < after.len() ==> !is_marker(#[trigger] after[j]),
    ensures
        last_marker(before.push(marker) + after) == Some(before.len() as int),
    decreases after.len(),
{
    let all = before.push(marker) + after;
    if after.len() > 0 {
        assert(all.drop_last() =~= before.push(marker) + after.drop_last());
        lemma_last_marker_after(before, marker, after.drop_last());
    }
}

/// Lines that are no markers, appended, leave the last marker where it was.
pub proof fn lemma_last_marker_kept(lines: Seq<Seq<u8>>, line: Seq<u8>)
    requires
        !is_marker(line),
    ensures
        last_marker(lines.push(line)) == last_marker(lines),
{
    assert(lines.push(line).drop_last() =~= lines);
}

/// The lines as sequences of bytes.
pub open spec fn views(lines: Seq<Vec<u8>>) -> Seq<Seq<u8>> {
    Seq::new(lines.len(), |i: int| lines[i]@)
}

/// Splits a log into its records.
pub fn split_records(log: &[u8]) -> (lines: Vec<Vec<u8>>)
    ensures
        views(lines@) == records(log@),
{
    let mut lines: Vec<Vec<u8>> = Vec::new();
    let mut line: Vec<u8> = Vec::new();
    let mut i: usize = 0;
    while i < log.len()
        invariant
            i <= log.len(),
            views(lines@) == closed_lines(log@.take(i as int)),
            line@ == open_line(log@.take(i as int)),
        decreases log.len() - i,
    {
        let byte = log[i];
        proof {
            assert(log@.take(i + 1).drop_last() =~= log@.take(i as int));
        }
        if byte == NEWLINE {
            if line.len() > 0 {
                lines.push(line);
            }
            line = Vec::new();
        } else {
            line.push(byte);
        }
        i += 1;
    }
    proof {
        assert(log@.take(i as int) =~= log@);
    }
    if line.len() > 0 {
        lines.push(line);
    }
    lines
}

/// The reserved tag as bytes.
pub fn checkpoint_tag_bytes() -> (tag: Vec<u8>)
    ensures
        tag@ == checkpoint_tag(),
{
    let tag: Vec<u8> = vec![99u8, 104u8, 101u8, 99u8, 107u8, 112u8, 111u8, 105u8, 110u8, 116u8];
    tag
}

/// Tells whether a line starts with the given bytes.
pub fn starts_with(line: &[u8], prefix: &[u8]) -> (yes: bool)
    ensures
        yes == prefix@.is_prefix_of(line@),
{
    if line.len() < prefix.len() {
        return false;
    }
    let mut i: usize = 0;
    while i < prefix.len()
        invariant
            i <= prefix.len() <= line.len(),
            forall|k: int| 0 <= k < i ==> line@[k] == prefix@[k],
        decreases prefix.len() - i,
    {
        if line[i] != prefix[i] {
            return false;
        }
        i += 1;
    }
    true
}

/// Tells whether a line of the log is a checkpoint marker.
pub fn is_checkpoint_marker(line: &[u8]) -> (yes: bool)
    ensures
        yes == is_marker(line@),
{
    let tag = checkpoint_tag_bytes();
    starts_with(line, tag.as_slice())
}

/// Finds the last checkpoint marker among the records of a log.
pub fn last_checkpoint(lines: &Vec<Vec<u8>>) -> (found: Option<usize>)
    ensures
        match found {
            Some(i) => i < lines.len() && last_marker(views(lines@)) == Some(i as int),
            None => last_marker(views(lines@)) is None,
        },
{
    let mut i: usize = lines.len();
    proof {
        assert(views(lines@).take(i as int) =~= views(lines@));
    }
    while i > 0
        invariant
            i <= lines.len(),
            last_marker(views(lines@)) == last_marker(views(lines@).take(i as int)),
        decreases i,
    {
        let ghost upto = views(lines@).take(i as int);
        proof {
            assert(upto.drop_last() =~= views(lines@).take(i - 1));
        }
        if is_checkpoint_marker(lines[i - 1].as_slice()) {
            return Some(i - 1);
        }
        i -= 1;
    }
    None
}

/// Builds the name of the snapshot with the given identifier.
pub fn name_snapshot(id: &[u8]) -> (name: Vec<u8>)
    ensures
        name@ == snapshot_name(id@),
{
    let mut name = checkpoint_tag_bytes();
    name.push(DOT);
    let mut i: usize = 0;
    while i < id.len()
        invariant
            i <= id.len(),
            name@ == checkpoint_tag().push(DOT) + id@.take(i as int),
        decreases id.len() - i,
    {
        name.push(id[i]);
        i += 1;
    }
    name
}

/// Ends a line: the bytes of `body` followed by the line terminator.
pub fn terminate(body: Vec<u8>) -> (line: Vec<u8>)
    ensures
        line@ == body@.push(NEWLINE),
{
    let mut line = body;
    line.push(NEWLINE);
    line
}

} // verus!
