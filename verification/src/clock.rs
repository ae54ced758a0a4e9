//! Where snapshot identifiers come from: a reading of the clock, written out
//! as a moment in UTC.

use vstd::prelude::*;
use std::fmt::Write;
use crate::records::NEWLINE;

verus! {

/// A reading of the clock: the whole seconds since 1970-01-01T00:00:00Z, and
/// the nanoseconds of the second that has begun.
#[derive(Clone, Copy, Debug, PartialEq, Eq)]
pub struct Moment {
    pub secs: u64,
    pub nanos: u32,
}

/// What `chrono` writes for the moment `secs` seconds and `nanos` nanoseconds
/// after 1970-01-01T00:00:00Z, in the `Debug` format of a `DateTime<Utc>`;
/// `None` where it has no such moment.
pub uninterp spec fn utc_text(secs: int, nanos: int) -> Option<Seq<u8>>;

/// Whether `byte` can occur in a moment written out: a digit, or one of
/// `-`, `+`, `:`, `.`, `T`, `Z`.
pub open spec fn timestamp_byte(byte: u8) -> bool {
    ||| 48 <= byte <= 57
    ||| byte == 45
    ||| byte == 43
    ||| byte == 58
    ||| byte == 46
    ||| byte == 84
    ||| byte == 90
}

/// Whether `text` has the shape of a moment written out: it is not empty and
/// holds no other bytes than those.
pub open spec fn timestamp_shaped(text: Seq<u8>) -> bool {
    &&& text.len() > 0
    &&& forall|i: int| 0 <= i < text.len() ==> timestamp_byte(#[trigger] text[i])
}

/// The identifier that the reading `moment` gives a snapshot, if it gives one.
pub open spec fn identifier(moment: Moment) -> Option<Seq<u8>> {
    if moment.secs <= i64::MAX {
        utc_text(moment.secs as int, moment.nanos as int)
    } else {
        None
    }
}

/// A moment written out stands on one line.
pub proof fn lemma_timestamp_on_one_line(text: Seq<u8>)
    requires
        timestamp_shaped(text),
    ensures
        !text.contains(NEWLINE),
{
}

/// Reads the system clock.
///
/// Calls `std::time::SystemTime::elapsed` on `UNIX_EPOCH`, which gives the
/// time that has passed since then, or an error where the clock stands
/// before it: that error becomes `None`. The parts of the duration are taken
/// with `as_secs` and `subsec_nanos`, of which the second is documented to
/// stay below one billion. Nothing is said of which moment comes back: two
/// calls need not differ.
#[verifier::external_body]
pub(crate) fn read_clock() -> (now: Option<Moment>)
    ensures
        now matches Some(moment) ==> moment.nanos < 1_000_000_000,
{
    match std::time::UNIX_EPOCH.elapsed() {
        Ok(since) => Some(Moment { secs: since.as_secs(), nanos: since.subsec_nanos() }),
        Err(_) => None,
    }
}

/// Writes a moment out.
///
/// Calls `chrono::DateTime::from_timestamp`, which gives the moment in UTC or
/// `None` where the seconds are out of its range or the nanoseconds are not
/// valid, and writes that moment with the `Debug` format of `DateTime`: the
/// date, a `T`, the time with its fraction of a second, and `Z`. The text
/// depends on the two numbers alone, so it has a name, `utc_text`. Of what
/// it holds only its shape is claimed: the format writes the date in every
/// case, and it writes digits and `-`, `+`, `:`, `.`, `T`, `Z` and nothing
/// else. Should the format report an error, that becomes `None` too.
#[verifier::external_body]
pub(crate) fn write_moment(secs: i64, nanos: u32) -> (text: Option<Vec<u8>>)
    ensures
        match text {
            Some(bytes) => utc_text(secs as int, nanos as int) == Some(bytes@),
            None => utc_text(secs as int, nanos as int) is None,
        },
        text matches Some(bytes) ==> timestamp_shaped(bytes@),
{
    match chrono::DateTime::from_timestamp(secs, nanos) {
        Some(moment) => {
            let mut text = String::new();
            match write!(text, "{:?}", moment) {
                Ok(()) => Some(text.into_bytes()),
                Err(_) => None,
            }
        },
        None => None,
    }
}

/// Turns a reading of the clock into the identifier of a snapshot.
pub fn identify(moment: Moment) -> (id: Option<Vec<u8>>)
    ensures
        match id {
            Some(bytes) => identifier(moment) == Some(bytes@) && timestamp_shaped(bytes@),
            None => identifier(moment) is None,
        },
{
    if moment.secs <= i64::MAX as u64 {
        write_moment(moment.secs as i64, moment.nanos)
    } else {
        None
    }
}

} // verus!
