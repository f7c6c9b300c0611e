//! The pool as a mathematical value, and what each operation makes of it.

use crate::gas_reservation_state::GasReservationData;
use crate::seq_lemmas::lemma_concat_members;
use crate::seq_lemmas::lemma_concat_no_duplicates;
use crate::seq_lemmas::lemma_cut_members;
use crate::seq_lemmas::lemma_filter_members;
use crate::seq_lemmas::lemma_reverse_members;
use gstd::ReservationId;
use vstd::prelude::*;

verus! {

/// Whether a reservation that can be used up to and including block
/// `expire_at_block` has run out at block `now`. On the block of its expiry it
/// can still be used.
pub open spec fn expired_at(now: u32, expire_at_block: u32) -> bool {
    now > expire_at_block
}

/// The last block on which a reservation made at block `now` for `duration`
/// blocks can be used: `now + duration`, or the last block there is when the
/// sum lies beyond it.
pub open spec fn expiry_block(now: u32, duration: u32) -> u32 {
    if now + duration <= u32::MAX {
        (now + duration) as u32
    } else {
        u32::MAX
    }
}

/// The test for an id other than `id`.
pub open spec fn other_than(id: u64) -> spec_fn(u64) -> bool {
    |other: u64| other != id
}

/// What a pool holds.
pub struct PoolState {
    /// The id that the next reservation gets.
    pub next_id: u64,
    /// The ids taken to be usable, the most recently added last.
    pub live: Seq<u64>,
    /// The ids found to have run out whose records are still stored.
    pub expired: Seq<u64>,
    /// The record of each id.
    pub records: Map<u64, GasReservationData>,
}

impl PoolState {
    /// The pool that holds nothing and has minted no id.
    pub open spec fn empty() -> PoolState {
        PoolState { next_id: 0, live: Seq::empty(), expired: Seq::empty(), records: Map::empty() }
    }

    /// No id stands twice in the two lists taken together, the ids with a
    /// record are those of the two lists, and each of them was minted before
    /// `next_id`.
    pub open spec fn wf(self) -> bool {
        &&& self.live.no_duplicates()
        &&& self.expired.no_duplicates()
        &&& forall|id: u64| !(#[trigger] self.live.contains(id) && self.expired.contains(id))
        &&& forall|id: u64| #[trigger]
            self.records.dom().contains(id) <==> (self.live.contains(id) || self.expired.contains(
                id,
            ))
        &&& forall|id: u64| #[trigger] self.records.dom().contains(id) ==> id < self.next_id
    }

    /// Whether the record of `id` has run out at block `now`.
    pub open spec fn is_expired(self, id: u64, now: u32) -> bool {
        expired_at(now, self.records[id].expire_at_block)
    }

    /// The test that `is_expired` makes, as a predicate on ids.
    pub open spec fn expired_ids_at(self, now: u32) -> spec_fn(u64) -> bool {
        |id: u64| self.is_expired(id, now)
    }

    /// The opposite test.
    pub open spec fn usable_ids_at(self, now: u32) -> spec_fn(u64) -> bool {
        |id: u64| !self.is_expired(id, now)
    }

    /// Whether some record holds the reservation `reserved_gas_id`.
    pub open spec fn holds(self, reserved_gas_id: ReservationId) -> bool {
        exists|id: u64|
            self.records.dom().contains(id) && (#[trigger] self.records[id]).reserved_gas_id
                == reserved_gas_id
    }

    /// Whether no two records hold the same reservation.
    pub open spec fn reservations_distinct(self) -> bool {
        forall|a: u64, b: u64|
            self.records.dom().contains(a) && self.records.dom().contains(b) && a != b ==> (
            #[trigger] self.records[a]).reserved_gas_id != (#[trigger] self.records[b]).reserved_gas_id
    }

    /// Whether another id can be minted.
    pub open spec fn can_mint(self) -> bool {
        self.next_id < u64::MAX
    }

    /// The pool after a reservation was entered under the next id.
    pub open spec fn with_reservation(
        self,
        reserved_gas_id: ReservationId,
        expire_at_block: u32,
    ) -> PoolState
        recommends
            self.can_mint(),
    {
        PoolState {
            next_id: (self.next_id + 1) as u64,
            live: self.live.push(self.next_id),
            expired: self.expired,
            records: self.records.insert(
                self.next_id,
                GasReservationData { reserved_gas_id, expire_at_block },
            ),
        }
    }

    /// Among the first `n` live ids, the place of the last one whose record
    /// can still be used at block `now`; -1 when there is none.
    pub open spec fn last_usable_below(self, now: u32, n: int) -> int
        decreases n,
    {
        if n <= 0 {
            -1
        } else if !self.is_expired(self.live[n - 1], now) {
            n - 1
        } else {
            self.last_usable_below(now, n - 1)
        }
    }

    /// The place in `live` of the most recently added id whose record can
    /// still be used at block `now`; -1 when there is none.
    pub open spec fn last_usable(self, now: u32) -> int {
        self.last_usable_below(now, self.live.len() as int)
    }

    /// The reservation that a withdrawal at block `now` hands out: that of the
    /// most recently added live id that has not run out.
    pub open spec fn withdrawn(self, now: u32) -> Option<ReservationId> {
        let k = self.last_usable(now);
        if k < 0 {
            None
        } else {
            Some(self.records[self.live[k]].reserved_gas_id)
        }
    }

    /// The pool after a withdrawal at block `now`. The live ids added after
    /// the one that is handed out have all run out: they move to the expired
    /// ids, the most recently added first, and keep their records. The id that
    /// is handed out leaves the pool with its record. When none can be used,
    /// every live id moves.
    pub open spec fn withdraw(self, now: u32) -> PoolState {
        let k = self.last_usable(now);
        if k < 0 {
            PoolState {
                next_id: self.next_id,
                live: Seq::empty(),
                expired: self.expired + self.live.reverse(),
                records: self.records,
            }
        } else {
            PoolState {
                next_id: self.next_id,
                live: self.live.take(k),
                expired: self.expired + self.live.skip(k + 1).reverse(),
                records: self.records.remove(self.live[k]),
            }
        }
    }

    /// The pool after the reservation of the live id `id` was given up; a pool
    /// in which `id` is not live stays as it is.
    pub open spec fn release(self, id: u64) -> PoolState {
        if self.live.contains(id) {
            PoolState {
                next_id: self.next_id,
                live: self.live.filter(other_than(id)),
                expired: self.expired,
                records: self.records.remove(id),
            }
        } else {
            self
        }
    }

    /// The pool after every live id was tested at block `now`: those that can
    /// still be used stay live, in their order; the others follow the expired
    /// ids, in their order.
    pub open spec fn sweep(self, now: u32) -> PoolState {
        PoolState {
            next_id: self.next_id,
            live: self.live.filter(self.usable_ids_at(now)),
            expired: self.expired + self.live.filter(self.expired_ids_at(now)),
            records: self.records,
        }
    }

    /// The pool after the records of the expired ids were dropped.
    pub open spec fn purge(self) -> PoolState {
        PoolState {
            next_id: self.next_id,
            live: self.live,
            expired: Seq::empty(),
            records: self.records.remove_keys(self.expired.to_set()),
        }
    }

    /// The empty pool is well formed.
    pub proof fn lemma_empty_wf()
        ensures
            PoolState::empty().wf(),
    {
    }

    /// Entering a reservation keeps a pool well formed, and the id that it
    /// gets was in neither list and had no record.
    pub proof fn lemma_with_reservation_wf(self, reserved_gas_id: ReservationId, expire_at_block: u32)
        requires
            self.wf(),
            self.can_mint(),
        ensures
            self.with_reservation(reserved_gas_id, expire_at_block).wf(),
            !self.live.contains(self.next_id),
            !self.expired.contains(self.next_id),
            !self.records.dom().contains(self.next_id),
    {
        let after = self.with_reservation(reserved_gas_id, expire_at_block);
        assert(!self.records.dom().contains(self.next_id));
        assert(!self.live.contains(self.next_id));
        assert(!self.expired.contains(self.next_id));
        assert forall|id: u64| #[trigger] after.live.contains(id) <==> (self.live.contains(id) || id
            == self.next_id) by {
            if self.live.contains(id) {
                let i = self.live.index_of(id);
                assert(after.live[i] == id);
            }
            if id == self.next_id {
                assert(after.live[self.live.len() as int] == id);
            }
        }
        assert(after.live.no_duplicates()) by {
            assert forall|i: int, j: int|
                0 <= i < after.live.len() && 0 <= j < after.live.len() && i != j implies after.live[i]
                != after.live[j] by {
                if i < self.live.len() {
                    assert(self.live.contains(self.live[i]));
                }
                if j < self.live.len() {
                    assert(self.live.contains(self.live[j]));
                }
            }
        }
    }

    /// What `last_usable_below` finds among the first `n` live ids: a place
    /// whose record can be used, after which every record has run out.
    pub proof fn lemma_last_usable_below(self, now: u32, n: int)
        requires
            0 <= n <= self.live.len(),
        ensures
            -1 <= self.last_usable_below(now, n) < n,
            self.last_usable_below(now, n) >= 0 ==> !self.is_expired(
                self.live[self.last_usable_below(now, n)],
                now,
            ),
            forall|j: int|
                self.last_usable_below(now, n) < j < n ==> self.is_expired(
                    #[trigger] self.live[j],
                    now,
                ),
        decreases n,
    {
        if n > 0 && self.is_expired(self.live[n - 1], now) {
            self.lemma_last_usable_below(now, n - 1);
        }
    }

    /// The place `k` is what `last_usable` finds if and only if the record at
    /// it can be used and every record after it has run out; and -1 if and
    /// only if every record has run out.
    pub proof fn lemma_last_usable_is(self, now: u32, k: int)
        requires
            -1 <= k < self.live.len(),
            k >= 0 ==> !self.is_expired(self.live[k], now),
            forall|j: int| k < j < self.live.len() ==> self.is_expired(#[trigger] self.live[j], now),
        ensures
            self.last_usable(now) == k,
    {
        let found = self.last_usable(now);
        self.lemma_last_usable_below(now, self.live.len() as int);
        if found < k {
            assert(self.is_expired(self.live[k], now));
        }
        if found > k {
            assert(self.is_expired(self.live[found], now));
        }
    }

    /// A withdrawal keeps a pool well formed.
    pub proof fn lemma_withdraw_wf(self, now: u32)
        requires
            self.wf(),
        ensures
            self.withdraw(now).wf(),
    {
        let k = self.last_usable(now);
        let after = self.withdraw(now);
        self.lemma_last_usable_below(now, self.live.len() as int);
        if k < 0 {
            let moved = self.live.reverse();
            lemma_reverse_members(self.live);
            lemma_concat_members(self.expired, moved);
            lemma_concat_no_duplicates(self.expired, moved);
            assert forall|id: u64| !(#[trigger] after.live.contains(id)) by {}
        } else {
            let tail = self.live.skip(k + 1);
            let moved = tail.reverse();
            lemma_cut_members(self.live, k);
            lemma_reverse_members(tail);
            assert forall|id: u64| !(#[trigger] self.expired.contains(id) && moved.contains(id)) by {
                if moved.contains(id) {
                    assert(tail.contains(id));
                    assert(self.live.contains(id));
                }
            }
            lemma_concat_members(self.expired, moved);
            lemma_concat_no_duplicates(self.expired, moved);
            assert(self.live.contains(self.live[k]));
            assert forall|id: u64| !(#[trigger] after.live.contains(id) && after.expired.contains(
                id,
            )) by {
                if after.live.contains(id) {
                    assert(self.live.contains(id));
                    assert(!tail.contains(id));
                    assert(!moved.contains(id));
                }
            }
            assert forall|id: u64| #[trigger]
                after.records.dom().contains(id) <==> (after.live.contains(id)
                    || after.expired.contains(id)) by {
                if after.expired.contains(id) {
                    if moved.contains(id) {
                        assert(tail.contains(id));
                        assert(self.live.contains(id));
                    }
                }
                if after.live.contains(id) {
                    assert(self.live.contains(id));
                }
                if after.records.dom().contains(id) {
                    assert(self.records.dom().contains(id));
                    if self.live.contains(id) {
                        assert(after.live.contains(id) || tail.contains(id));
                        if tail.contains(id) {
                            assert(moved.contains(id));
                        }
                    }
                }
            }
        }
    }

    /// A sweep keeps a pool well formed.
    pub proof fn lemma_sweep_wf(self, now: u32)
        requires
            self.wf(),
        ensures
            self.sweep(now).wf(),
    {
        let after = self.sweep(now);
        let moved = self.live.filter(self.expired_ids_at(now));
        lemma_filter_members(self.live, self.usable_ids_at(now));
        lemma_filter_members(self.live, self.expired_ids_at(now));
        assert forall|id: u64| !(#[trigger] self.expired.contains(id) && moved.contains(id)) by {
            if moved.contains(id) {
                assert(self.live.contains(id));
            }
        }
        lemma_concat_members(self.expired, moved);
        lemma_concat_no_duplicates(self.expired, moved);
        assert forall|id: u64| !(#[trigger] after.live.contains(id) && after.expired.contains(
            id,
        )) by {
            if after.live.contains(id) {
                assert(self.live.contains(id));
                assert(!moved.contains(id));
            }
        }
        assert forall|id: u64| #[trigger]
            after.records.dom().contains(id) <==> (after.live.contains(id) || after.expired.contains(
                id,
            )) by {
            if self.live.contains(id) {
                assert(after.live.contains(id) || moved.contains(id));
            }
            if moved.contains(id) {
                assert(self.live.contains(id));
            }
            if after.live.contains(id) {
                assert(self.live.contains(id));
            }
        }
    }

    /// A purge keeps a pool well formed.
    pub proof fn lemma_purge_wf(self)
        requires
            self.wf(),
        ensures
            self.purge().wf(),
    {
        let after = self.purge();
        assert forall|id: u64| !(#[trigger] after.expired.contains(id)) by {}
        assert forall|id: u64| #[trigger]
            after.records.dom().contains(id) <==> after.live.contains(id) by {
            assert(self.expired.to_set().contains(id) <==> self.expired.contains(id));
        }
    }

    /// Giving up a reservation keeps a pool well formed.
    pub proof fn lemma_release_wf(self, id: u64)
        requires
            self.wf(),
        ensures
            self.release(id).wf(),
    {
        if self.live.contains(id) {
            let after = self.release(id);
            lemma_filter_members(self.live, other_than(id));
            assert forall|x: u64| #[trigger]
                after.records.dom().contains(x) <==> (after.live.contains(x)
                    || after.expired.contains(x)) by {
                if after.live.contains(x) {
                    assert(self.live.contains(x));
                }
                if self.live.contains(x) && x != id {
                    assert(after.live.contains(x));
                }
            }
            assert forall|x: u64| !(#[trigger] after.live.contains(x) && after.expired.contains(
                x,
            )) by {
                if after.live.contains(x) {
                    assert(self.live.contains(x));
                }
            }
        }
    }
}

} // verus!
