//! What holds of the pool whatever is done with it.

use crate::pool_state::expired_at;
use crate::pool_state::expiry_block;
use crate::pool_state::other_than;
use crate::pool_state::PoolState;
use crate::seq_lemmas::lemma_filter_keeps_all;
use crate::seq_lemmas::lemma_filter_keeps_none;
use crate::seq_lemmas::lemma_filter_members;
use gstd::ReservationId;
use vstd::prelude::*;

verus! {

/// A reservation made at block `made_at` for `duration` blocks has run out at
/// block `now` if and only if `now` lies after `made_at + duration`: on that
/// block it can still be used, on the next it cannot.
pub proof fn lemma_expiry_boundary(made_at: u32, duration: u32, now: u32)
    ensures
        expired_at(now, expiry_block(made_at, duration)) <==> now > made_at + duration,
{
}

/// A reservation entered into a pool at block `made_at` for `duration` blocks
/// is the one that a withdrawal hands out at any block up to
/// `made_at + duration`, and a sweep at such a block keeps its id live. At any
/// later block a withdrawal and a sweep both put its id among the expired
/// ids, where its record stays; a withdrawal then hands the reservation out
/// only if the pool already held it under an earlier id.
pub proof fn lemma_expiry_boundary_in_pool(
    pool: PoolState,
    reserved_gas_id: ReservationId,
    made_at: u32,
    duration: u32,
    now: u32,
)
    requires
        pool.wf(),
        pool.can_mint(),
    ensures
        ({
            let made = pool.with_reservation(reserved_gas_id, expiry_block(made_at, duration));
            let id = pool.next_id;
            if now <= made_at + duration {
                &&& made.withdrawn(now) == Some(reserved_gas_id)
                &&& made.withdraw(now).expired == pool.expired
                &&& made.sweep(now).live.contains(id)
                &&& !made.sweep(now).expired.contains(id)
            } else {
                &&& made.withdrawn(now) != Some(reserved_gas_id) || pool.holds(reserved_gas_id)
                &&& made.withdraw(now).expired.contains(id)
                &&& made.withdraw(now).records.dom().contains(id)
                &&& made.sweep(now).expired.contains(id)
                &&& !made.sweep(now).live.contains(id)
            }
        }),
{
    let made = pool.with_reservation(reserved_gas_id, expiry_block(made_at, duration));
    let id = pool.next_id;
    let last = pool.live.len() as int;
    pool.lemma_with_reservation_wf(reserved_gas_id, expiry_block(made_at, duration));
    assert(made.live[last] == id);
    assert(made.live.contains(id));
    lemma_filter_members(made.live, made.usable_ids_at(now));
    lemma_filter_members(made.live, made.expired_ids_at(now));
    made.lemma_sweep_wf(now);
    if now <= made_at + duration {
        made.lemma_last_usable_is(now, last);
        assert(made.live.skip(last + 1).reverse() =~= Seq::<u64>::empty());
        assert(pool.expired + Seq::<u64>::empty() =~= pool.expired);
        assert(made.sweep(now).live.contains(id));
    } else {
        let k = made.last_usable(now);
        made.lemma_last_usable_below(now, made.live.len() as int);
        assert(k < last) by {
            if k == last {
                assert(!made.is_expired(made.live[last], now));
            }
        }
        let moved = if k < 0 {
            made.live.reverse()
        } else {
            made.live.skip(k + 1).reverse()
        };
        assert(moved[0] == id);
        let after = made.withdraw(now);
        assert(after.expired[pool.expired.len() as int] == id);
        assert(made.live.filter(made.expired_ids_at(now)).contains(id));
        let swept = made.live.filter(made.expired_ids_at(now));
        let at = swept.index_of(id);
        assert(made.sweep(now).expired[pool.expired.len() + at] == id);
        if k >= 0 {
            assert(made.live[k] == pool.live[k]);
            assert(pool.live.contains(pool.live[k]));
            assert(made.live[k] != id);
            if made.withdrawn(now) == Some(reserved_gas_id) {
                assert(pool.records.dom().contains(pool.live[k]));
                assert(pool.records[pool.live[k]].reserved_gas_id == reserved_gas_id);
            }
        }
    }
}

/// A second sweep at the same block changes nothing.
pub proof fn lemma_sweep_twice(pool: PoolState, now: u32)
    requires
        pool.wf(),
    ensures
        pool.sweep(now).sweep(now) == pool.sweep(now),
{
    let once = pool.sweep(now);
    lemma_filter_members(pool.live, pool.usable_ids_at(now));
    assert forall|i: int| 0 <= i < once.live.len() implies once.usable_ids_at(now)(
        #[trigger] once.live[i],
    ) by {
        assert(once.live.contains(once.live[i]));
    }
    assert forall|i: int| 0 <= i < once.live.len() implies !once.expired_ids_at(now)(
        #[trigger] once.live[i],
    ) by {
        assert(once.live.contains(once.live[i]));
    }
    lemma_filter_keeps_all(once.live, once.usable_ids_at(now));
    lemma_filter_keeps_none(once.live, once.expired_ids_at(now));
    assert(once.expired + Seq::<u64>::empty() =~= once.expired);
}

/// A second purge changes nothing: after the first, no expired id is left and
/// the records are those of the live ids.
pub proof fn lemma_purge_twice(pool: PoolState)
    ensures
        pool.purge().purge() == pool.purge(),
        pool.purge().expired.len() == 0,
{
    let once = pool.purge();
    assert(once.records.remove_keys(once.expired.to_set()) =~= once.records);
}

/// A withdrawal from a pool in which no live id can be used (none is live, or
/// all have run out) hands out nothing. It moves every live id to the expired
/// ids, the most recently added first, and changes no record.
pub proof fn lemma_withdraw_from_exhausted(pool: PoolState, now: u32)
    requires
        pool.wf(),
        forall|i: int| 0 <= i < pool.live.len() ==> pool.is_expired(#[trigger] pool.live[i], now),
    ensures
        pool.withdrawn(now) is None,
        pool.withdraw(now).records == pool.records,
        pool.withdraw(now).next_id == pool.next_id,
        pool.withdraw(now).live.len() == 0,
        pool.withdraw(now).expired == pool.expired + pool.live.reverse(),
{
    pool.lemma_last_usable_is(now, -1);
}

/// A withdrawal hands out something if and only if some live id can still be
/// used.
pub proof fn lemma_withdraw_succeeds(pool: PoolState, now: u32)
    requires
        pool.wf(),
    ensures
        pool.withdrawn(now) is Some <==> exists|i: int|
            0 <= i < pool.live.len() && !pool.is_expired(#[trigger] pool.live[i], now),
{
    pool.lemma_last_usable_below(now, pool.live.len() as int);
    let k = pool.last_usable(now);
    if k >= 0 {
        assert(!pool.is_expired(pool.live[k], now));
    }
}

/// One step in the life of a pool.
pub enum PoolOp {
    /// The host made the reservation `reserved_gas_id` at block `now` for
    /// `duration` blocks, and it is entered into the pool.
    Reserve { reserved_gas_id: ReservationId, now: u32, duration: u32 },
    /// A withdrawal at block `now`.
    Withdraw { now: u32 },
    /// The reservation of `id` is given up.
    Release { id: u64 },
    /// A sweep at block `now`.
    Sweep { now: u32 },
    /// A purge.
    Purge,
}

/// The pool after one step. A reservation that finds every id minted is not
/// entered.
pub open spec fn apply(pool: PoolState, op: PoolOp) -> PoolState {
    match op {
        PoolOp::Reserve { reserved_gas_id, now, duration } => if pool.can_mint() {
            pool.with_reservation(reserved_gas_id, expiry_block(now, duration))
        } else {
            pool
        },
        PoolOp::Withdraw { now } => pool.withdraw(now),
        PoolOp::Release { id } => pool.release(id),
        PoolOp::Sweep { now } => pool.sweep(now),
        PoolOp::Purge => pool.purge(),
    }
}

/// The pool after the first `n` of the steps `ops`, in their order.
pub open spec fn after_steps(pool: PoolState, ops: Seq<PoolOp>, n: int) -> PoolState
    decreases n,
{
    if n <= 0 {
        pool
    } else {
        apply(after_steps(pool, ops, n - 1), ops[n - 1])
    }
}

/// The id that step `i` of `ops` mints, if it mints one.
pub open spec fn minted_at(pool: PoolState, ops: Seq<PoolOp>, i: int) -> Option<u64> {
    let before = after_steps(pool, ops, i);
    if ops[i] is Reserve && before.can_mint() {
        Some(before.next_id)
    } else {
        None
    }
}

/// The reservation that step `i` of `ops` hands out, if it hands one out.
pub open spec fn handed_out_at(pool: PoolState, ops: Seq<PoolOp>, i: int) -> Option<
    ReservationId,
> {
    match ops[i] {
        PoolOp::Withdraw { now } => after_steps(pool, ops, i).withdrawn(now),
        _ => None,
    }
}

/// The reservation that the host made for step `i` of `ops`, if that step
/// enters one.
pub open spec fn reserved_at(ops: Seq<PoolOp>, i: int) -> Option<ReservationId> {
    match ops[i] {
        PoolOp::Reserve { reserved_gas_id, now, duration } => Some(reserved_gas_id),
        _ => None,
    }
}

/// The host makes no reservation twice: what it makes for one step is
/// neither held by the pool at the start nor made for another step.
pub open spec fn host_issues_once(pool: PoolState, ops: Seq<PoolOp>) -> bool {
    &&& forall|i: int|
        0 <= i < ops.len() && (#[trigger] reserved_at(ops, i)) is Some ==> !pool.holds(
            reserved_at(ops, i).unwrap(),
        )
    &&& forall|i: int, j: int|
        0 <= i < j < ops.len() && (#[trigger] reserved_at(ops, i)) is Some ==> (#[trigger] reserved_at(
            ops,
            j,
        )) != reserved_at(ops, i)
}

/// No step lowers the counter that mints the ids, and every step keeps the
/// pool well formed.
pub proof fn lemma_step_keeps_order(pool: PoolState, op: PoolOp)
    requires
        pool.wf(),
    ensures
        apply(pool, op).wf(),
        apply(pool, op).next_id >= pool.next_id,
        op is Reserve && pool.can_mint() ==> apply(pool, op).next_id == pool.next_id + 1,
{
    match op {
        PoolOp::Reserve { reserved_gas_id, now, duration } => {
            if pool.can_mint() {
                pool.lemma_with_reservation_wf(reserved_gas_id, expiry_block(now, duration));
            }
        },
        PoolOp::Withdraw { now } => {
            pool.lemma_withdraw_wf(now);
        },
        PoolOp::Release { id } => {
            pool.lemma_release_wf(id);
        },
        PoolOp::Sweep { now } => {
            pool.lemma_sweep_wf(now);
        },
        PoolOp::Purge => {
            pool.lemma_purge_wf();
        },
    }
}

/// Along any steps the pool stays well formed and the counter never falls.
pub proof fn lemma_steps_keep_order(pool: PoolState, ops: Seq<PoolOp>, m: int, n: int)
    requires
        pool.wf(),
        0 <= m <= n <= ops.len(),
    ensures
        after_steps(pool, ops, n).wf(),
        after_steps(pool, ops, m).next_id <= after_steps(pool, ops, n).next_id,
    decreases n,
{
    if n > 0 {
        if m < n {
            lemma_steps_keep_order(pool, ops, m, n - 1);
        } else {
            lemma_steps_keep_order(pool, ops, n - 1, n - 1);
        }
        lemma_step_keeps_order(after_steps(pool, ops, n - 1), ops[n - 1]);
    }
}

/// The ids that the pool mints are pairwise distinct and rise: of two steps
/// that each mint an id, whatever steps lie between them, the later one mints
/// the greater id. The id that a step mints was in neither list and had no
/// record when it was minted.
pub proof fn lemma_minted_ids_rise(pool: PoolState, ops: Seq<PoolOp>, i: int, j: int)
    requires
        pool.wf(),
        0 <= i < j < ops.len(),
        minted_at(pool, ops, i) is Some,
        minted_at(pool, ops, j) is Some,
    ensures
        minted_at(pool, ops, i).unwrap() < minted_at(pool, ops, j).unwrap(),
        !after_steps(pool, ops, j).records.dom().contains(minted_at(pool, ops, j).unwrap()),
        !after_steps(pool, ops, j).live.contains(minted_at(pool, ops, j).unwrap()),
        !after_steps(pool, ops, j).expired.contains(minted_at(pool, ops, j).unwrap()),
{
    lemma_steps_keep_order(pool, ops, i, i);
    lemma_step_keeps_order(after_steps(pool, ops, i), ops[i]);
    lemma_steps_keep_order(pool, ops, i + 1, j);
    let before = after_steps(pool, ops, j);
    match ops[j] {
        PoolOp::Reserve { reserved_gas_id, now, duration } => {
            before.lemma_with_reservation_wf(reserved_gas_id, expiry_block(now, duration));
        },
        _ => {},
    }
}

/// The expired ids shrink by a purge only: after any other step the expired
/// ids of before still stand at the front, in their order.
pub proof fn lemma_expired_ids_stay_until_purge(pool: PoolState, op: PoolOp)
    requires
        !(op is Purge),
    ensures
        pool.expired.is_prefix_of(apply(pool, op).expired),
{
    let after = apply(pool, op);
    assert(after.expired.len() >= pool.expired.len());
    assert(after.expired.take(pool.expired.len() as int) =~= pool.expired);
}

/// An id leaves the live ids once: an id that has been minted and is not
/// live is not live after any step.
pub proof fn lemma_left_ids_stay_out(pool: PoolState, op: PoolOp, id: u64)
    requires
        pool.wf(),
        id < pool.next_id,
        !pool.live.contains(id),
    ensures
        !apply(pool, op).live.contains(id),
{
    let after = apply(pool, op);
    if after.live.contains(id) {
        let i = after.live.index_of(id);
        match op {
            PoolOp::Reserve { reserved_gas_id, now, duration } => {
                if i < pool.live.len() {
                    assert(pool.live[i] == id);
                }
            },
            PoolOp::Withdraw { now } => {
                pool.lemma_last_usable_below(now, pool.live.len() as int);
                assert(pool.live[i] == id);
            },
            PoolOp::Release { id: released } => {
                lemma_filter_members(pool.live, other_than(released));
            },
            PoolOp::Sweep { now } => {
                lemma_filter_members(pool.live, pool.usable_ids_at(now));
            },
            PoolOp::Purge => {},
        }
    }
}

/// Whether every record of `after` is a record of `before`.
pub open spec fn keeps_no_new_record(before: PoolState, after: PoolState) -> bool {
    forall|id: u64| #[trigger]
        after.records.dom().contains(id) ==> before.records.dom().contains(id)
            && after.records[id] == before.records[id]
}

/// A pool whose records all come from another holds no reservation that the
/// other does not hold, and no reservation twice if the other holds none
/// twice.
pub proof fn lemma_no_new_record(before: PoolState, after: PoolState)
    requires
        keeps_no_new_record(before, after),
    ensures
        forall|reserved_gas_id: ReservationId| #[trigger]
            after.holds(reserved_gas_id) ==> before.holds(reserved_gas_id),
        before.reservations_distinct() ==> after.reservations_distinct(),
{
    assert forall|reserved_gas_id: ReservationId| #[trigger]
        after.holds(reserved_gas_id) implies before.holds(reserved_gas_id) by {
        let id = choose|id: u64|
            after.records.dom().contains(id) && (#[trigger] after.records[id]).reserved_gas_id
                == reserved_gas_id;
        assert(before.records.dom().contains(id) && before.records[id].reserved_gas_id
            == reserved_gas_id);
    }
    if before.reservations_distinct() {
        assert forall|a: u64, b: u64|
            after.records.dom().contains(a) && after.records.dom().contains(b) && a
                != b implies (#[trigger] after.records[a]).reserved_gas_id != (
        #[trigger] after.records[b]).reserved_gas_id by {
            assert(before.records[a].reserved_gas_id != before.records[b].reserved_gas_id);
        }
    }
}

/// Only entering a reservation adds a record: after any other step, and after
/// a reservation that finds every id minted, every record was there before.
pub proof fn lemma_step_adds_no_record(pool: PoolState, op: PoolOp)
    requires
        !(op is Reserve && pool.can_mint()),
    ensures
        keeps_no_new_record(pool, apply(pool, op)),
{
}

/// No double issue, in one withdrawal: the reservation that is handed out was
/// held under a live id whose record was usable, and afterwards that id has
/// no record and stands in neither list. If the pool held no reservation
/// twice, no record holds the reservation any more.
pub proof fn lemma_withdrawn_leaves(pool: PoolState, now: u32)
    requires
        pool.wf(),
        pool.withdrawn(now) is Some,
    ensures
        ({
            let id = pool.live[pool.last_usable(now)];
            let after = pool.withdraw(now);
            &&& pool.live.contains(id)
            &&& pool.records.dom().contains(id)
            &&& pool.records[id].reserved_gas_id == pool.withdrawn(now).unwrap()
            &&& !pool.is_expired(id, now)
            &&& !after.records.dom().contains(id)
            &&& !after.live.contains(id)
            &&& !after.expired.contains(id)
            &&& pool.reservations_distinct() ==> !after.holds(pool.withdrawn(now).unwrap())
        }),
{
    let k = pool.last_usable(now);
    let id = pool.live[k];
    let after = pool.withdraw(now);
    pool.lemma_last_usable_below(now, pool.live.len() as int);
    pool.lemma_withdraw_wf(now);
    assert(pool.live.contains(id));
    if pool.reservations_distinct() && after.holds(pool.withdrawn(now).unwrap()) {
        let other = choose|other: u64|
            after.records.dom().contains(other) && (#[trigger] after.records[other]).reserved_gas_id
                == pool.withdrawn(now).unwrap();
        assert(pool.records.dom().contains(other));
        assert(pool.records[other].reserved_gas_id == pool.records[id].reserved_gas_id);
    }
}

/// Along any steps for which the host makes no reservation twice, the pool
/// holds no reservation twice, and whatever it holds it either held at the
/// start or the host made for an earlier step.
pub proof fn lemma_steps_hold_what_was_made(pool: PoolState, ops: Seq<PoolOp>, n: int)
    requires
        pool.wf(),
        pool.reservations_distinct(),
        host_issues_once(pool, ops),
        0 <= n <= ops.len(),
    ensures
        after_steps(pool, ops, n).wf(),
        after_steps(pool, ops, n).reservations_distinct(),
        forall|reserved_gas_id: ReservationId| #[trigger]
            after_steps(pool, ops, n).holds(reserved_gas_id) ==> pool.holds(reserved_gas_id) || exists|
                m: int,
            |
                0 <= m < n && #[trigger] reserved_at(ops, m) == Some(reserved_gas_id),
    decreases n,
{
    if n > 0 {
        lemma_steps_hold_what_was_made(pool, ops, n - 1);
        let before = after_steps(pool, ops, n - 1);
        let op = ops[n - 1];
        let after = after_steps(pool, ops, n);
        lemma_step_keeps_order(before, op);
        if op is Reserve && before.can_mint() {
            let made = reserved_at(ops, n - 1).unwrap();
            assert(!before.holds(made)) by {
                if before.holds(made) {
                    if !pool.holds(made) {
                        let m = choose|m: int|
                            0 <= m < n - 1 && #[trigger] reserved_at(ops, m) == Some(made);
                        assert(reserved_at(ops, n - 1) != reserved_at(ops, m));
                    }
                }
            }
            assert(after.records.dom().contains(before.next_id));
            assert(after.records[before.next_id].reserved_gas_id == made);
            assert forall|a: u64, b: u64|
                after.records.dom().contains(a) && after.records.dom().contains(b) && a
                    != b implies (#[trigger] after.records[a]).reserved_gas_id != (
            #[trigger] after.records[b]).reserved_gas_id by {
                if a == before.next_id {
                    assert(before.records.dom().contains(b));
                    assert(before.records[b].reserved_gas_id != made);
                } else if b == before.next_id {
                    assert(before.records.dom().contains(a));
                    assert(before.records[a].reserved_gas_id != made);
                } else {
                    assert(before.records[a].reserved_gas_id != before.records[b].reserved_gas_id);
                }
            }
            assert forall|reserved_gas_id: ReservationId| #[trigger]
                after.holds(reserved_gas_id) implies pool.holds(reserved_gas_id) || exists|m: int|
                0 <= m < n && #[trigger] reserved_at(ops, m) == Some(reserved_gas_id) by {
                let id = choose|id: u64|
                    after.records.dom().contains(id) && (
                    #[trigger] after.records[id]).reserved_gas_id == reserved_gas_id;
                if id == before.next_id {
                    assert(reserved_at(ops, n - 1) == Some(reserved_gas_id));
                } else {
                    assert(before.records.dom().contains(id) && before.records[id].reserved_gas_id
                        == reserved_gas_id);
                    assert(before.holds(reserved_gas_id));
                    if !pool.holds(reserved_gas_id) {
                        let m = choose|m: int|
                            0 <= m < n - 1 && #[trigger] reserved_at(ops, m) == Some(
                                reserved_gas_id,
                            );
                        assert(0 <= m < n && reserved_at(ops, m) == Some(reserved_gas_id));
                    }
                }
            }
        } else {
            lemma_step_adds_no_record(before, op);
            lemma_no_new_record(before, after);
            assert forall|reserved_gas_id: ReservationId| #[trigger]
                after.holds(reserved_gas_id) implies pool.holds(reserved_gas_id) || exists|m: int|
                0 <= m < n && #[trigger] reserved_at(ops, m) == Some(reserved_gas_id) by {
                assert(before.holds(reserved_gas_id));
                if !pool.holds(reserved_gas_id) {
                    let m = choose|m: int|
                        0 <= m < n - 1 && #[trigger] reserved_at(ops, m) == Some(reserved_gas_id);
                    assert(0 <= m < n && reserved_at(ops, m) == Some(reserved_gas_id));
                }
            }
        }
    }
}

/// Along any steps for which the host makes no reservation twice, a
/// reservation that step `i` handed out is held by no record after any later
/// step.
pub proof fn lemma_handed_out_stays_out(pool: PoolState, ops: Seq<PoolOp>, i: int, n: int)
    requires
        pool.wf(),
        pool.reservations_distinct(),
        host_issues_once(pool, ops),
        0 <= i < n <= ops.len(),
        handed_out_at(pool, ops, i) is Some,
    ensures
        !after_steps(pool, ops, n).holds(handed_out_at(pool, ops, i).unwrap()),
    decreases n,
{
    let handed_out = handed_out_at(pool, ops, i).unwrap();
    let source = after_steps(pool, ops, i);
    lemma_steps_hold_what_was_made(pool, ops, i);
    if n == i + 1 {
        match ops[i] {
            PoolOp::Withdraw { now } => {
                lemma_withdrawn_leaves(source, now);
            },
            _ => {},
        }
    } else {
        lemma_handed_out_stays_out(pool, ops, i, n - 1);
        lemma_steps_hold_what_was_made(pool, ops, n - 1);
        let before = after_steps(pool, ops, n - 1);
        let op = ops[n - 1];
        let after = after_steps(pool, ops, n);
        if op is Reserve && before.can_mint() {
            let made = reserved_at(ops, n - 1).unwrap();
            assert(source.holds(handed_out)) by {
                match ops[i] {
                    PoolOp::Withdraw { now } => {
                        lemma_withdrawn_leaves(source, now);
                        let id = source.live[source.last_usable(now)];
                        assert(source.records.dom().contains(id) && source.records[id].reserved_gas_id
                            == handed_out);
                    },
                    _ => {},
                }
            }
            assert(made != handed_out) by {
                if made == handed_out {
                    if !pool.holds(handed_out) {
                        let m = choose|m: int|
                            0 <= m < i && #[trigger] reserved_at(ops, m) == Some(handed_out);
                        assert(reserved_at(ops, n - 1) != reserved_at(ops, m));
                    }
                }
            }
            if after.holds(handed_out) {
                let id = choose|id: u64|
                    after.records.dom().contains(id) && (
                    #[trigger] after.records[id]).reserved_gas_id == handed_out;
                assert(id != before.next_id);
                assert(before.records.dom().contains(id) && before.records[id].reserved_gas_id
                    == handed_out);
                assert(before.holds(handed_out));
            }
        } else {
            lemma_step_adds_no_record(before, op);
            lemma_no_new_record(before, after);
        }
    }
}

/// No double issue, over the life of a pool: as long as the host makes no
/// reservation twice and the pool held none twice at the start, no two
/// withdrawals hand out the same reservation, whatever steps lie between
/// them.
pub proof fn lemma_no_reservation_twice(pool: PoolState, ops: Seq<PoolOp>, i: int, j: int)
    requires
        pool.wf(),
        pool.reservations_distinct(),
        host_issues_once(pool, ops),
        0 <= i < j < ops.len(),
        handed_out_at(pool, ops, i) is Some,
        handed_out_at(pool, ops, j) is Some,
    ensures
        handed_out_at(pool, ops, i) != handed_out_at(pool, ops, j),
{
    lemma_handed_out_stays_out(pool, ops, i, j);
    lemma_steps_hold_what_was_made(pool, ops, j);
    let source = after_steps(pool, ops, j);
    match ops[j] {
        PoolOp::Withdraw { now } => {
            lemma_withdrawn_leaves(source, now);
            let id = source.live[source.last_usable(now)];
            assert(source.records.dom().contains(id) && source.records[id].reserved_gas_id
                == handed_out_at(pool, ops, j).unwrap());
            assert(source.holds(handed_out_at(pool, ops, j).unwrap()));
        },
        _ => {},
    }
}

} // verus!
