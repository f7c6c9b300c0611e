//! The pool of gas reservations and its operations.
//!
//! Each operation that needs the block height or the host comes twice: under
//! its plain name it asks the host itself; the other takes what the host
//! answered as an argument, and its contract says what it does for every
//! answer.

use crate::host::current_block_height;
use crate::host::reserve_gas_at_host;
use crate::host::unreserve_gas_at_host;
use crate::pool_state::expired_at;
use crate::pool_state::expiry_block;
use crate::pool_state::other_than;
use crate::pool_state::PoolState;
use crate::reservation_table::expiry_pairs;
use crate::reservation_table::table_contains_key;
use crate::reservation_table::table_expiry_pairs;
use crate::reservation_table::table_get;
use crate::reservation_table::table_insert;
use crate::reservation_table::table_new;
use crate::reservation_table::table_records;
use crate::reservation_table::table_remove;
use crate::reservation_table::ReservationTable;
use crate::seq_lemmas::lemma_filter_step;
use crate::seq_lemmas::lemma_reverse_skip_step;
use gstd::errors::CoreError;
use gstd::ReservationId;
use vstd::prelude::*;

verus! {

/// One reservation that the pool holds.
#[derive(Clone, Copy)]
pub struct GasReservationData {
    /// The host's identifier of the reservation.
    pub reserved_gas_id: ReservationId,
    /// The last block on which the reservation can be used.
    pub expire_at_block: u32,
}

impl GasReservationData {
    /// The record of the reservation `reserved_gas_id`, which can be used up
    /// to and including block `expire_at_block`.
    pub fn new(reserved_gas_id: ReservationId, expire_at_block: u32) -> (data: Self)
        ensures
            data.reserved_gas_id == reserved_gas_id,
            data.expire_at_block == expire_at_block,
    {
        Self { reserved_gas_id, expire_at_block }
    }
}

/// Why an operation of the pool failed.
#[derive(Clone, Copy, Debug, PartialEq, Eq)]
pub enum GasReservationError {
    /// The id does not name a live reservation.
    NoReservationIdsToUnreserve,
    /// The host did not give the gas of the reservation back.
    UnableToUnreserveGas,
    /// The host did not make the reservation.
    ErrorWhileDoingReservation,
    /// Every id has been minted.
    GasReservationIdOverflow,
    /// The reservation has run out.
    GasReservationIsExpired(ReservationId),
    /// The pool holds no reservation.
    NoGasReservationsInContract,
}

/// The pool: the counter that mints ids, the live ids, the expired ids, and
/// the record of each.
pub struct ContractGasReservations {
    current_gas_reservation_id: u64,
    gas_reservations_ids: Vec<u64>,
    expired_gas_reservations_id: Vec<u64>,
    gas_reservation_data_by_id: ReservationTable,
}

impl View for ContractGasReservations {
    type V = PoolState;

    closed spec fn view(&self) -> PoolState {
        PoolState {
            next_id: self.current_gas_reservation_id,
            live: self.gas_reservations_ids@,
            expired: self.expired_gas_reservations_id@,
            records: table_records(self.gas_reservation_data_by_id),
        }
    }
}

impl ContractGasReservations {
    /// What every pool satisfies: see [`PoolState::wf`]. Each constructor
    /// establishes it and each operation keeps it, and the fields are private,
    /// so no pool exists for which it fails.
    pub open spec fn wf(&self) -> bool {
        self@.wf()
    }

    /// A pool that holds nothing.
    pub fn new() -> (pool: Self)
        ensures
            pool.wf(),
            pool@ == PoolState::empty(),
    {
        let pool = ContractGasReservations {
            current_gas_reservation_id: 0,
            gas_reservations_ids: Vec::new(),
            expired_gas_reservations_id: Vec::new(),
            gas_reservation_data_by_id: table_new(),
        };
        proof {
            PoolState::lemma_empty_wf();
        }
        pool
    }

    /// A pool that holds nothing and mints `first_id` as its first id.
    pub fn starting_at(first_id: u64) -> (pool: Self)
        ensures
            pool.wf(),
            pool@.next_id == first_id,
            pool@.live == Seq::<u64>::empty(),
            pool@.expired == Seq::<u64>::empty(),
            pool@.records == Map::<u64, GasReservationData>::empty(),
    {
        ContractGasReservations {
            current_gas_reservation_id: first_id,
            gas_reservations_ids: Vec::new(),
            expired_gas_reservations_id: Vec::new(),
            gas_reservation_data_by_id: table_new(),
        }
    }

    /// Enters into the pool what the host answered when asked, at block
    /// `current_block_height`, for a reservation of
    /// `reservation_duration_in_blocks` blocks.
    ///
    /// A refusal of the host is `ErrorWhileDoingReservation`. A reservation
    /// that the host made is entered under the next id and becomes the last of
    /// the live ids; it can be used up to and including block
    /// `current_block_height + reservation_duration_in_blocks`, or up to the
    /// last block there is where that sum lies beyond it. Where every id has
    /// been minted, the error is `GasReservationIdOverflow`: the host has made
    /// the reservation, the pool does not hold it, and it is for the caller
    /// to give it back. A failure leaves the pool as it was.
    pub fn store_reservation(
        &mut self,
        acquired: Result<ReservationId, CoreError>,
        current_block_height: u32,
        reservation_duration_in_blocks: u32,
    ) -> (outcome: Result<(), GasReservationError>)
        requires
            old(self).wf(),
        ensures
            final(self).wf(),
            match acquired {
                Err(_) => {
                    &&& outcome == Err::<(), GasReservationError>(
                        GasReservationError::ErrorWhileDoingReservation,
                    )
                    &&& final(self)@ == old(self)@
                },
                Ok(reserved_gas_id) => if old(self)@.can_mint() {
                    &&& outcome == Ok::<(), GasReservationError>(())
                    &&& final(self)@ == old(self)@.with_reservation(
                        reserved_gas_id,
                        expiry_block(current_block_height, reservation_duration_in_blocks),
                    )
                } else {
                    &&& outcome == Err::<(), GasReservationError>(
                        GasReservationError::GasReservationIdOverflow,
                    )
                    &&& final(self)@ == old(self)@
                },
            },
    {
        let reserved_gas_id = match acquired {
            Ok(reserved_gas_id) => reserved_gas_id,
            Err(_) => {
                return Err(GasReservationError::ErrorWhileDoingReservation);
            },
        };
        let current_reservation_id = match self.current_gas_reservation_id.checked_add(1) {
            Some(id) => id,
            None => {
                return Err(GasReservationError::GasReservationIdOverflow);
            },
        };
        let reservation_data = GasReservationData::new(
            reserved_gas_id,
            current_block_height.saturating_add(reservation_duration_in_blocks),
        );
        let reservation_id_to_use = self.current_gas_reservation_id;
        proof {
            old(self)@.lemma_with_reservation_wf(reserved_gas_id, reservation_data.expire_at_block);
        }
        table_insert(&mut self.gas_reservation_data_by_id, reservation_id_to_use, reservation_data);
        self.gas_reservations_ids.push(reservation_id_to_use);
        self.current_gas_reservation_id = current_reservation_id;
        Ok(())
    }

    /// Asks the host for a reservation of `reservation_amount` gas for
    /// `reservation_duration_in_blocks` blocks and enters it into the pool, as
    /// [`Self::store_reservation`] says for the host's answer and the block
    /// height that the host gave.
    ///
    /// Where the host made the reservation and every id has been minted, the
    /// reservation cannot be entered: the host is asked to take it back, so
    /// that no gas stays reserved that nobody can use, and the error is
    /// `GasReservationIdOverflow` whatever the host answers to that.
    pub fn make_gas_reservation(
        &mut self,
        reservation_amount: u64,
        reservation_duration_in_blocks: u32,
    ) -> (outcome: Result<(), GasReservationError>)
        requires
            old(self).wf(),
        ensures
            final(self).wf(),
            match outcome {
                Ok(_) => {
                    &&& old(self)@.can_mint()
                    &&& exists|reserved_gas_id: ReservationId, now: u32|
                        final(self)@ == old(self)@.with_reservation(
                            reserved_gas_id,
                            expiry_block(now, reservation_duration_in_blocks),
                        )
                },
                Err(error) => {
                    &&& final(self)@ == old(self)@
                    &&& error == GasReservationError::ErrorWhileDoingReservation || (error
                        == GasReservationError::GasReservationIdOverflow
                        && !old(self)@.can_mint())
                },
            },
    {
        let current_block_height = current_block_height();
        let acquired = reserve_gas_at_host(reservation_amount, reservation_duration_in_blocks);
        let outcome = self.store_reservation(
            acquired,
            current_block_height,
            reservation_duration_in_blocks,
        );
        if let Ok(reserved_gas_id) = acquired {
            if outcome.is_err() {
                let _ = unreserve_gas_at_host(reserved_gas_id);
            }
        }
        outcome
    }

    /// Whether the reservation has run out at block `current_block_height`:
    /// whether that block lies after the last one on which it can be used.
    pub fn gas_reservation_id_is_expired_at(
        reservation_data: &GasReservationData,
        current_block_height: u32,
    ) -> (expired: bool)
        ensures
            expired == expired_at(current_block_height, reservation_data.expire_at_block),
    {
        current_block_height > reservation_data.expire_at_block
    }

    /// Whether the reservation has run out at the block height that the host
    /// gives.
    pub fn gas_reservation_id_is_expired(reservation_data: &GasReservationData) -> (expired: bool)
        ensures
            exists|now: u32| expired == expired_at(now, reservation_data.expire_at_block),
    {
        let actual_block_height = current_block_height();
        Self::gas_reservation_id_is_expired_at(reservation_data, actual_block_height)
    }

    /// Takes out of the pool, for the caller to use, the most recently made
    /// reservation that has not run out at block `current_block_height`.
    ///
    /// The live ids are tried from the last one back. One whose reservation
    /// has run out moves to the expired ids and keeps its record. The first
    /// one whose reservation can still be used leaves the pool with its
    /// record, and its reservation is returned. `None` is returned when no
    /// live id is left.
    pub fn get_reservation_id_at(&mut self, current_block_height: u32) -> (reserved_gas_id: Option<
        ReservationId,
    >)
        requires
            old(self).wf(),
        ensures
            final(self).wf(),
            final(self)@ == old(self)@.withdraw(current_block_height),
            reserved_gas_id == old(self)@.withdrawn(current_block_height),
    {
        let ghost before = self@;
        proof {
            before.lemma_withdraw_wf(current_block_height);
            assert(before.live.skip(before.live.len() as int).reverse() =~= Seq::<u64>::empty());
            assert(before.live.take(before.live.len() as int) =~= before.live);
            assert(before.expired + Seq::<u64>::empty() =~= before.expired);
        }
        loop
            invariant
                before == old(self)@,
                before.wf(),
                before.withdraw(current_block_height).wf(),
                self.current_gas_reservation_id == before.next_id,
                table_records(self.gas_reservation_data_by_id) == before.records,
                self.gas_reservations_ids@.len() <= before.live.len(),
                self.gas_reservations_ids@ == before.live.take(
                    self.gas_reservations_ids@.len() as int,
                ),
                self.expired_gas_reservations_id@ == before.expired + before.live.skip(
                    self.gas_reservations_ids@.len() as int,
                ).reverse(),
                forall|j: int|
                    self.gas_reservations_ids@.len() <= j < before.live.len() ==> before.is_expired(
                        #[trigger] before.live[j],
                        current_block_height,
                    ),
            decreases self.gas_reservations_ids@.len(),
        {
            let ghost n = self.gas_reservations_ids@.len() as int;
            let reservation_id = match self.gas_reservations_ids.pop() {
                Some(reservation_id) => reservation_id,
                None => {
                    proof {
                        before.lemma_last_usable_is(current_block_height, -1);
                        assert(before.live.skip(0) =~= before.live);
                        assert(self.gas_reservations_ids@ =~= Seq::<u64>::empty());
                    }
                    return None;
                },
            };
            proof {
                assert(reservation_id == before.live[n - 1]);
                assert(before.live.contains(reservation_id));
                assert(before.live.take(n).drop_last() =~= before.live.take(n - 1));
            }
            let reservation_data = table_get(&self.gas_reservation_data_by_id, reservation_id).unwrap();
            let reservation_is_expired = Self::gas_reservation_id_is_expired_at(
                reservation_data,
                current_block_height,
            );
            if reservation_is_expired {
                self.expired_gas_reservations_id.push(reservation_id);
                proof {
                    lemma_reverse_skip_step(before.live, n);
                    assert(self.expired_gas_reservations_id@ =~= before.expired + before.live.skip(
                        n - 1,
                    ).reverse());
                }
            } else {
                let taken = table_remove(&mut self.gas_reservation_data_by_id, reservation_id).unwrap();
                proof {
                    before.lemma_last_usable_is(current_block_height, n - 1);
                }
                return Some(taken.reserved_gas_id);
            }
        }
    }

    /// Takes out of the pool the most recently made reservation that has not
    /// run out at the block height that the host gives, as
    /// [`Self::get_reservation_id_at`] says for that height.
    pub fn get_reservation_id(&mut self) -> (reserved_gas_id: Option<ReservationId>)
        requires
            old(self).wf(),
        ensures
            final(self).wf(),
            exists|now: u32|
                final(self)@ == old(self)@.withdraw(now) && reserved_gas_id == old(self)@.withdrawn(
                    now,
                ),
    {
        let current_block_height = current_block_height();
        self.get_reservation_id_at(current_block_height)
    }

    /// Tests every live id at block `current_block_height`: the ids whose
    /// reservation can still be used stay live, in their order, and the others
    /// follow the expired ids, in their order. No record changes.
    pub fn check_all_reservations_id_at(&mut self, current_block_height: u32)
        requires
            old(self).wf(),
        ensures
            final(self).wf(),
            final(self)@ == old(self)@.sweep(current_block_height),
    {
        let ghost before = self@;
        let ghost usable = before.usable_ids_at(current_block_height);
        let ghost run_out = before.expired_ids_at(current_block_height);
        proof {
            before.lemma_sweep_wf(current_block_height);
        }
        if self.gas_reservations_ids.is_empty() {
            proof {
                reveal(Seq::filter);
                assert(before.expired + Seq::<u64>::empty() =~= before.expired);
            }
            return ;
        }
        let mut expired_reservations_id: Vec<u64> = Vec::new();
        let mut alive_reservations_id: Vec<u64> = Vec::new();
        let mut i: usize = 0;
        proof {
            reveal(Seq::filter);
            assert(before.live.take(0) =~= Seq::<u64>::empty());
        }
        while i < self.gas_reservations_ids.len()
            invariant
                before == self@,
                before.wf(),
                usable == before.usable_ids_at(current_block_height),
                run_out == before.expired_ids_at(current_block_height),
                i <= before.live.len(),
                alive_reservations_id@ == before.live.take(i as int).filter(usable),
                expired_reservations_id@ == before.live.take(i as int).filter(run_out),
            decreases before.live.len() - i,
        {
            let reservation_id = self.gas_reservations_ids[i];
            proof {
                assert(before.live.contains(reservation_id));
                lemma_filter_step(before.live, usable, i as int);
                lemma_filter_step(before.live, run_out, i as int);
            }
            let reservation_data = table_get(&self.gas_reservation_data_by_id, reservation_id).unwrap();
            if Self::gas_reservation_id_is_expired_at(reservation_data, current_block_height) {
                expired_reservations_id.push(reservation_id);
            } else {
                alive_reservations_id.push(reservation_id);
            }
            i += 1;
        }
        proof {
            assert(before.live.take(i as int) =~= before.live);
        }
        self.gas_reservations_ids = alive_reservations_id;
        self.expired_gas_reservations_id.append(&mut expired_reservations_id);
    }

    /// Tests every live id at the block height that the host gives, as
    /// [`Self::check_all_reservations_id_at`] says for that height.
    pub fn check_all_reservations_id(&mut self)
        requires
            old(self).wf(),
        ensures
            final(self).wf(),
            exists|now: u32| final(self)@ == old(self)@.sweep(now),
    {
        let current_block_height = current_block_height();
        self.check_all_reservations_id_at(current_block_height);
    }

    /// Drops the record of every expired id and empties the list of expired
    /// ids. The live ids and their records stay, and the host is not asked.
    pub fn remove_expired_reservations_id(&mut self)
        requires
            old(self).wf(),
        ensures
            final(self).wf(),
            final(self)@ == old(self)@.purge(),
    {
        let ghost before = self@;
        proof {
            before.lemma_purge_wf();
        }
        if self.expired_gas_reservations_id.len() < 1 {
            proof {
                assert(before.expired =~= Seq::<u64>::empty());
                assert(before.records.remove_keys(before.expired.to_set()) =~= before.records);
            }
            return ;
        }
        let mut i: usize = 0;
        proof {
            assert(before.records.remove_keys(before.expired.take(0).to_set()) =~= before.records);
        }
        while i < self.expired_gas_reservations_id.len()
            invariant
                before.wf(),
                self.current_gas_reservation_id == before.next_id,
                self.gas_reservations_ids@ == before.live,
                self.expired_gas_reservations_id@ == before.expired,
                i <= before.expired.len(),
                table_records(self.gas_reservation_data_by_id) == before.records.remove_keys(
                    before.expired.take(i as int).to_set(),
                ),
            decreases before.expired.len() - i,
        {
            let id = self.expired_gas_reservations_id[i];
            table_remove(&mut self.gas_reservation_data_by_id, id);
            proof {
                let done = before.expired.take(i as int).to_set();
                assert(before.expired.take(i + 1).to_set() =~= done.insert(id)) by {
                    assert(before.expired.take(i + 1) =~= before.expired.take(i as int).push(id));
                    assert forall|x: u64|
                        before.expired.take(i + 1).to_set().contains(x) <==> done.insert(
                            id,
                        ).contains(x) by {
                        if before.expired.take(i as int).contains(x) {
                            let j = before.expired.take(i as int).index_of(x);
                            assert(before.expired.take(i + 1)[j] == x);
                        }
                        if x == id {
                            assert(before.expired.take(i + 1)[i as int] == x);
                        }
                    }
                }
                assert(before.records.remove_keys(done).remove(id) =~= before.records.remove_keys(
                    done.insert(id),
                ));
            }
            i += 1;
        }
        proof {
            assert(before.expired.take(i as int) =~= before.expired);
        }
        self.expired_gas_reservations_id.clear();
    }

    /// Takes the reservation of the live id `reservation_id` out of the pool,
    /// with its record, and returns it. Where `reservation_id` is not live
    /// (never minted, already taken, or found expired), the pool stays as it
    /// is and `None` is returned.
    pub fn remove_reservation(&mut self, reservation_id: u64) -> (reserved_gas_id: Option<
        ReservationId,
    >)
        requires
            old(self).wf(),
        ensures
            final(self).wf(),
            final(self)@ == old(self)@.release(reservation_id),
            reserved_gas_id == (if old(self)@.live.contains(reservation_id) {
                Some(old(self)@.records[reservation_id].reserved_gas_id)
            } else {
                None
            }),
    {
        let ghost before = self@;
        proof {
            before.lemma_release_wf(reservation_id);
        }
        if self.gas_reservations_ids.is_empty() || !table_contains_key(
            &self.gas_reservation_data_by_id,
            reservation_id,
        ) {
            proof {
                if before.live.contains(reservation_id) {
                    assert(before.live.len() > 0);
                }
            }
            return None;
        }
        let mut reservations_id_updated: Vec<u64> = Vec::new();
        let mut i: usize = 0;
        proof {
            reveal(Seq::filter);
            assert(before.live.take(0) =~= Seq::<u64>::empty());
        }
        while i < self.gas_reservations_ids.len()
            invariant
                before == self@,
                i <= before.live.len(),
                reservations_id_updated@ == before.live.take(i as int).filter(
                    other_than(reservation_id),
                ),
                reservations_id_updated@.len() == i <==> !before.live.take(i as int).contains(
                    reservation_id,
                ),
                reservations_id_updated@.len() <= i,
            decreases before.live.len() - i,
        {
            let id = self.gas_reservations_ids[i];
            proof {
                lemma_filter_step(before.live, other_than(reservation_id), i as int);
                let shorter = before.live.take(i as int);
                let longer = before.live.take(i + 1);
                assert(longer =~= shorter.push(id));
                if shorter.contains(reservation_id) {
                    let j = shorter.index_of(reservation_id);
                    assert(longer[j] == reservation_id);
                }
                if longer.contains(reservation_id) && id != reservation_id {
                    let j = longer.index_of(reservation_id);
                    assert(shorter[j] == reservation_id);
                }
                if id == reservation_id {
                    assert(longer[i as int] == reservation_id);
                }
            }
            if id != reservation_id {
                reservations_id_updated.push(id);
            }
            i += 1;
        }
        proof {
            assert(before.live.take(i as int) =~= before.live);
        }
        if reservations_id_updated.len() == self.gas_reservations_ids.len() {
            return None;
        }
        let removed_reservation_data = table_remove(
            &mut self.gas_reservation_data_by_id,
            reservation_id,
        ).unwrap();
        self.gas_reservations_ids = reservations_id_updated;
        Some(removed_reservation_data.reserved_gas_id)
    }

    /// What giving a reservation back comes to, from the host's answer: the
    /// amount of gas that the host gave back, or `UnableToUnreserveGas` where
    /// it refused.
    pub fn unreserve_outcome(released: Result<u64, CoreError>) -> (outcome: Result<
        u64,
        GasReservationError,
    >)
        ensures
            match released {
                Ok(amount) => outcome == Ok::<u64, GasReservationError>(amount),
                Err(_) => outcome == Err::<u64, GasReservationError>(
                    GasReservationError::UnableToUnreserveGas,
                ),
            },
    {
        match released {
            Ok(amount) => Ok(amount),
            Err(_) => Err(GasReservationError::UnableToUnreserveGas),
        }
    }

    /// Gives the reservation of the live id `reservation_id` back to the host.
    ///
    /// Where `reservation_id` is not live, the pool stays as it is, the host
    /// is not asked, and the error is `NoReservationIdsToUnreserve`. Otherwise
    /// the id leaves the pool with its record, whatever the host then answers:
    /// the amount of gas given back, or `UnableToUnreserveGas`.
    pub fn unreserve_gas(&mut self, reservation_id: u64) -> (outcome: Result<
        u64,
        GasReservationError,
    >)
        requires
            old(self).wf(),
        ensures
            final(self).wf(),
            final(self)@ == old(self)@.release(reservation_id),
            !old(self)@.live.contains(reservation_id) ==> outcome == Err::<
                u64,
                GasReservationError,
            >(GasReservationError::NoReservationIdsToUnreserve),
            old(self)@.live.contains(reservation_id) ==> outcome is Ok || outcome == Err::<
                u64,
                GasReservationError,
            >(GasReservationError::UnableToUnreserveGas),
    {
        match self.remove_reservation(reservation_id) {
            None => Err(GasReservationError::NoReservationIdsToUnreserve),
            Some(reserved_gas_id) => Self::unreserve_outcome(unreserve_gas_at_host(reserved_gas_id)),
        }
    }

    /// The live ids, the most recently added last.
    pub fn reservations_id(&self) -> (ids: Vec<u64>)
        ensures
            ids@ == self@.live,
    {
        self.gas_reservations_ids.clone()
    }

    /// The ids found expired whose records are still stored.
    pub fn expired_reservations_id(&self) -> (ids: Vec<u64>)
        ensures
            ids@ == self@.expired,
    {
        self.expired_gas_reservations_id.clone()
    }

    /// For every record, its id and the last block on which its reservation
    /// can be used; each record once, in no fixed order.
    pub fn gas_reservations_data(&self) -> (pairs: Vec<(u64, u32)>)
        ensures
            pairs@.no_duplicates(),
            pairs@.to_set() == expiry_pairs(self@.records),
    {
        table_expiry_pairs(&self.gas_reservation_data_by_id)
    }

    /// The id that the next reservation gets.
    pub fn next_reservation_id(&self) -> (id: u64)
        ensures
            id == self@.next_id,
    {
        self.current_gas_reservation_id
    }
}

impl Default for ContractGasReservations {
    fn default() -> (pool: Self)
        ensures
            pool.wf(),
            pool@ == PoolState::empty(),
    {
        ContractGasReservations::new()
    }
}

} // verus!
