//! What a state must offer to be persisted, and how the engine speaks of it.
//!
//! The engine is generic in the state, so its contracts cannot say what a
//! state's methods compute, and the two traits promise nothing of them. The
//! contracts say instead which results those methods can give: each relation
//! below holds of an input and an output when a call of the method on that
//! input may return that output. For a state whose methods carry contracts of
//! their own, the relation yields what those contracts say.

use vstd::prelude::*;

verus! {

/// A value with an encoding as bytes.
pub trait Codec: Sized {
    /// Encodes the value; `None` where it cannot be encoded.
    fn encode(&self) -> Option<Vec<u8>>;

    /// Decodes a value; `None` where the bytes are not the encoding of one.
    fn decode(bytes: &[u8]) -> Option<Self>;
}

/// A state that can be persisted: it has a default, an encoding, and
/// operations, themselves encoded, that change it and yield a result.
pub trait Persistable: Sized + Default + Codec {
    /// One change of the state.
    type Operation: Codec;

    /// What applying an operation tells the caller. It is not persisted.
    type ApplyResult;

    /// Applies an operation to the state.
    fn apply(&mut self, op: Self::Operation) -> Self::ApplyResult;
}

/// `value.encode()` may return `bytes`.
pub open spec fn encodes_to<C: Codec>(value: C, bytes: Seq<u8>) -> bool {
    exists|out: Vec<u8>| out@ == bytes && #[trigger] call_ensures(C::encode, (&value,), Some(out))
}

/// `value.encode()` may fail.
pub open spec fn encoding_fails<C: Codec>(value: C) -> bool {
    call_ensures(C::encode, (&value,), None::<Vec<u8>>)
}

/// `C::decode` may return `value` on `bytes`.
pub open spec fn decodes_to<C: Codec>(bytes: Seq<u8>, value: Option<C>) -> bool {
    exists|input: &[u8]| input@ == bytes && #[trigger] call_ensures(C::decode, (input,), value)
}

/// `T::default()` may return `state`.
pub open spec fn is_default<T: Persistable>(state: T) -> bool {
    call_ensures(T::default, (), state)
}

/// Applying `op` to `before` may leave `after` and return `result`.
///
/// `apply` works behind a mutable reference, so the relation goes through
/// `transition`, which hands it a state taken by value and gives that state
/// back.
pub open spec fn applies<T: Persistable>(
    before: T,
    op: T::Operation,
    after: T,
    result: T::ApplyResult,
) -> bool {
    call_ensures(transition::<T>, (before, op), (after, result))
}

/// Encodes a value and records what came back.
pub fn encode_value<C: Codec>(value: &C) -> (encoded: Option<Vec<u8>>)
    ensures
        match encoded {
            Some(bytes) => encodes_to(*value, bytes@),
            None => encoding_fails(*value),
        },
{
    value.encode()
}

/// Decodes a value and records what came back.
pub fn decode_value<C: Codec>(bytes: &[u8]) -> (decoded: Option<C>)
    ensures
        decodes_to(bytes@, decoded),
{
    C::decode(bytes)
}

/// Makes a default state and records what came back.
pub fn default_state<T: Persistable>() -> (state: T)
    ensures
        is_default(state),
{
    T::default()
}

/// Applies an operation to a state held by value.
///
/// The state handed back is the one that `apply` left behind the reference it
/// was given, and the result is the one it returned.
pub fn transition<T: Persistable>(state: T, op: T::Operation) -> (out: (T, T::ApplyResult))
    ensures
        exists|target: &mut T|
            mut_ref_current(target) == state && mut_ref_future(target) == out.0
                && #[trigger] call_ensures(T::apply, (target, op), out.1),
{
    let mut current = state;
    let result = current.apply(op);
    let ghost after = current;
    let ghost returned = result;
    let out = (current, result);
    proof {
        assert(out.0 == after && out.1 == returned);
        assert(exists|target: &mut T|
            mut_ref_current(target) == state && mut_ref_future(target) == after
                && #[trigger] call_ensures(T::apply, (target, op), returned));
    }
    out
}

} // verus!
