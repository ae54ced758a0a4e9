use persistent::contract::{decode_value, default_state, encode_value};
use persistent::recovery::{recover, replay};
use persistent::{Codec, Persist, PersistError, Persistable, ReadOutcome, WriteOutcome};

// A counter whose operations are written as decimal numbers. Adding zero has
// no encoding, and the counter itself cannot be encoded beyond 99.

#[derive(Default, Debug, Clone, PartialEq)]
struct Counter {
    total: u64,
}

#[derive(Debug, Clone, PartialEq)]
struct Add(u64);

fn number(bytes: &[u8]) -> Option<u64> {
    std::str::from_utf8(bytes).ok()?.parse().ok()
}

impl Codec for Add {
    fn encode(&self) -> Option<Vec<u8>> {
        if self.0 == 0 {
            None
        } else {
            Some(format!("{}", self.0).into_bytes())
        }
    }

    fn decode(bytes: &[u8]) -> Option<Self> {
        number(bytes).map(Add)
    }
}

impl Codec for Counter {
    fn encode(&self) -> Option<Vec<u8>> {
        if self.total > 99 {
            None
        } else {
            Some(format!("{}", self.total).into_bytes())
        }
    }

    fn decode(bytes: &[u8]) -> Option<Self> {
        number(bytes).map(|total| Counter { total })
    }
}

impl Persistable for Counter {
    type Operation = Add;
    type ApplyResult = u64;

    fn apply(&mut self, op: Add) -> u64 {
        self.total += op.0;
        self.total
    }
}

fn lines(texts: &[&str]) -> Vec<Vec<u8>> {
    texts.iter().map(|t| t.as_bytes().to_vec()).collect()
}

#[test]
fn operation_without_encoding_is_not_staged() {
    assert_eq!(Persist::<Counter>::stage(Add(0)).err(), Some(PersistError::Encode));
    let staged = Persist::<Counter>::stage(Add(12)).ok().unwrap();
    assert_eq!(staged.record(), &b"12\n".to_vec());
}

#[test]
fn state_without_encoding_is_not_captured() {
    let mut engine: Persist<Counter> = Persist::create("counter".to_string());
    let staged = Persist::<Counter>::stage(Add(99)).ok().unwrap();
    assert_eq!(engine.apply(staged, WriteOutcome::Durable), Ok(99));
    let checkpoint = engine.snapshot_as(b"a".to_vec()).unwrap();
    assert_eq!(checkpoint.contents(), &b"99".to_vec());
    assert!(engine.snapshot().is_ok());

    let staged = Persist::<Counter>::stage(Add(1)).ok().unwrap();
    assert_eq!(engine.apply(staged, WriteOutcome::Durable), Ok(100));
    assert_eq!(engine.snapshot_as(b"b".to_vec()).err(), Some(PersistError::Encode));
    assert_eq!(engine.snapshot().err(), Some(PersistError::Encode));
    assert_eq!(engine.snapshot_at(None).err(), Some(PersistError::Clock));
    assert_eq!(engine.state(), &Counter { total: 100 });
}

#[test]
fn each_failure_has_its_kind() {
    let open = |log: ReadOutcome, snapshot: ReadOutcome| {
        Persist::<Counter>::open("counter".to_string(), log, snapshot).map(|e| e.state().clone())
    };
    assert_eq!(open(ReadOutcome::Missing, ReadOutcome::Missing), Err(PersistError::NotFound));
    assert_eq!(open(ReadOutcome::Failed, ReadOutcome::Missing), Err(PersistError::Io));
    assert_eq!(
        open(ReadOutcome::Found(b"1\nx\n".to_vec()), ReadOutcome::Missing),
        Err(PersistError::Decode)
    );
    assert_eq!(
        open(ReadOutcome::Found(b"checkpoint.1\n".to_vec()), ReadOutcome::Missing),
        Err(PersistError::Io)
    );
    assert_eq!(
        open(ReadOutcome::Found(b"checkpoint.1\n".to_vec()), ReadOutcome::Found(b"x".to_vec())),
        Err(PersistError::Decode)
    );
    assert_eq!(
        open(ReadOutcome::Found(b"1\n2\n".to_vec()), ReadOutcome::Missing),
        Ok(Counter { total: 3 })
    );
    assert_eq!(
        open(
            ReadOutcome::Found(b"1\ncheckpoint.1\n2\n".to_vec()),
            ReadOutcome::Found(b"40".to_vec())
        ),
        Ok(Counter { total: 42 })
    );
}

#[test]
fn recover_rebuilds_the_state() {
    let recovered: Result<Counter, PersistError> =
        recover(ReadOutcome::Found(b"5\n\n6\n7".to_vec()), ReadOutcome::Missing);
    assert_eq!(recovered, Ok(Counter { total: 18 }));
    let recovered: Result<Counter, PersistError> =
        recover(ReadOutcome::Found(b"5\ncheckpoint.a\ncheckpoint.b\n".to_vec()), ReadOutcome::Found(b"9".to_vec()));
    assert_eq!(recovered, Ok(Counter { total: 9 }));
}

#[test]
fn replay_starts_where_it_is_told() {
    let log = lines(&["1", "10", "100"]);
    assert_eq!(replay(Counter { total: 5 }, &log, 0), Ok(Counter { total: 116 }));
    assert_eq!(replay(Counter { total: 5 }, &log, 1), Ok(Counter { total: 115 }));
    assert_eq!(replay(Counter { total: 5 }, &log, 3), Ok(Counter { total: 5 }));
}

#[test]
fn replay_stops_at_the_first_line_that_is_no_operation() {
    let log = lines(&["1", "ten", "100"]);
    assert_eq!(replay(Counter::default(), &log, 0), Err(PersistError::Decode));
    assert_eq!(replay(Counter::default(), &log, 2), Ok(Counter { total: 100 }));
}

#[test]
fn values_are_encoded_and_decoded_by_their_codec() {
    assert_eq!(encode_value(&Add(7)), Some(b"7".to_vec()));
    assert_eq!(encode_value(&Add(0)), None);
    assert_eq!(decode_value::<Add>(b"7"), Some(Add(7)));
    assert_eq!(decode_value::<Add>(b"seven"), None);
    assert_eq!(decode_value::<Counter>(b"70"), Some(Counter { total: 70 }));
    assert_eq!(default_state::<Counter>(), Counter { total: 0 });
}
