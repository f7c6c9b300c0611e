//! The calls into the host of a Gear program: the block height, and the two
//! calls that make and give back a gas reservation.
//!
//! Nothing here is proved. The host answers from its own state, so no contract
//! says what comes back. Outside a Gear program (on any target but `wasm32`)
//! `gsys` has no host to ask and each of these calls panics.

use gstd::errors::CoreError;
use gstd::ReservationId;
use gstd::ReservationIdExt;
use vstd::prelude::*;

verus! {

/// The host's identifier of one gas reservation: 32 bytes that only the host
/// can read a meaning into. The pool carries it and compares nothing but
/// whole values.
#[verifier::external_type_specification]
#[verifier::external_body]
pub struct ExReservationId(ReservationId);

/// The error that a call into the host comes back with.
#[verifier::external_type_specification]
#[verifier::external_body]
pub struct ExCoreError(CoreError);

/// Calls `gstd::exec::block_height`: the height of the block in which the
/// program is running. Nothing is claimed of the value.
#[verifier::external_body]
pub(crate) fn current_block_height() -> (height: u32) {
    gstd::exec::block_height()
}

/// Calls `ReservationId::reserve` of `gstd::ReservationIdExt`: asks the host to
/// set `amount` of gas aside for `duration` blocks. Nothing is claimed of the
/// outcome: the host may refuse any request.
#[verifier::external_body]
pub(crate) fn reserve_gas_at_host(amount: u64, duration: u32) -> (acquired: Result<
    ReservationId,
    CoreError,
>) {
    ReservationId::reserve(amount, duration)
}

/// Calls `ReservationId::unreserve` of `gstd::ReservationIdExt`: asks the host
/// to give the gas of a reservation back. Nothing is claimed of the outcome.
#[verifier::external_body]
pub(crate) fn unreserve_gas_at_host(reserved_gas_id: ReservationId) -> (released: Result<
    u64,
    CoreError,
>) {
    reserved_gas_id.unreserve()
}

} // verus!
