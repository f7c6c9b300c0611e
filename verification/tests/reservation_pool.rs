use gas_reservations::gas_reservation_state::ContractGasReservations;
use gas_reservations::gas_reservation_state::GasReservationData;
use gas_reservations::gas_reservation_state::GasReservationError;
use gstd::errors::CoreError;
use gstd::ReservationId;

fn handle(n: u64) -> ReservationId {
    ReservationId::from(n)
}

fn sorted(mut pairs: Vec<(u64, u32)>) -> Vec<(u64, u32)> {
    pairs.sort();
    pairs
}

fn pool_with(grants: &[(u64, u32, u32)]) -> ContractGasReservations {
    let mut pool = ContractGasReservations::new();
    for (n, now, duration) in grants {
        assert_eq!(pool.store_reservation(Ok(handle(*n)), *now, *duration), Ok(()));
    }
    pool
}

#[test]
fn new_pool_is_empty() {
    let pool = ContractGasReservations::new();
    assert_eq!(pool.reservations_id(), Vec::<u64>::new());
    assert_eq!(pool.expired_reservations_id(), Vec::<u64>::new());
    assert_eq!(pool.gas_reservations_data(), Vec::<(u64, u32)>::new());
    assert_eq!(pool.next_reservation_id(), 0);
}

#[test]
fn default_pool_is_empty() {
    let pool = ContractGasReservations::default();
    assert_eq!(pool.reservations_id(), Vec::<u64>::new());
    assert_eq!(pool.expired_reservations_id(), Vec::<u64>::new());
    assert_eq!(pool.gas_reservations_data(), Vec::<(u64, u32)>::new());
    assert_eq!(pool.next_reservation_id(), 0);
}

#[test]
fn record_keeps_what_it_was_given() {
    let data = GasReservationData::new(handle(9), 77);
    assert_eq!(data.reserved_gas_id, handle(9));
    assert_eq!(data.expire_at_block, 77);
}

#[test]
fn stored_reservation_expires_at_block_plus_duration() {
    let mut pool = ContractGasReservations::new();
    assert_eq!(pool.store_reservation(Ok(handle(1000)), 5, 10), Ok(()));
    assert_eq!(pool.reservations_id(), vec![0]);
    assert_eq!(pool.expired_reservations_id(), Vec::<u64>::new());
    assert_eq!(pool.gas_reservations_data(), vec![(0, 15)]);
    assert_eq!(pool.next_reservation_id(), 1);
}

#[test]
fn reservation_is_handed_out_on_the_block_of_its_expiry() {
    let mut pool = pool_with(&[(1000, 5, 10)]);
    assert_eq!(pool.get_reservation_id_at(15), Some(handle(1000)));
    assert_eq!(pool.reservations_id(), Vec::<u64>::new());
    assert_eq!(pool.expired_reservations_id(), Vec::<u64>::new());
    assert_eq!(pool.gas_reservations_data(), Vec::<(u64, u32)>::new());
}

#[test]
fn reservation_is_not_handed_out_one_block_after_its_expiry() {
    let mut pool = pool_with(&[(1000, 5, 10)]);
    assert_eq!(pool.get_reservation_id_at(16), None);
    assert_eq!(pool.reservations_id(), Vec::<u64>::new());
    assert_eq!(pool.expired_reservations_id(), vec![0]);
    assert_eq!(pool.gas_reservations_data(), vec![(0, 15)]);
}

#[test]
fn unreserving_a_withdrawn_id_is_not_found() {
    let mut pool = pool_with(&[(1000, 5, 10)]);
    assert_eq!(pool.get_reservation_id_at(6), Some(handle(1000)));
    assert_eq!(
        pool.unreserve_gas(0),
        Err(GasReservationError::NoReservationIdsToUnreserve)
    );
    assert_eq!(pool.remove_reservation(0), None);
    assert_eq!(pool.reservations_id(), Vec::<u64>::new());
    assert_eq!(pool.gas_reservations_data(), Vec::<(u64, u32)>::new());
}

#[test]
fn unreserving_in_an_empty_pool_is_not_found() {
    let mut pool = ContractGasReservations::new();
    assert_eq!(
        pool.unreserve_gas(0),
        Err(GasReservationError::NoReservationIdsToUnreserve)
    );
    assert_eq!(pool.next_reservation_id(), 0);
}

#[test]
fn unreserving_an_id_never_minted_is_not_found() {
    let mut pool = pool_with(&[(1, 0, 10), (2, 0, 10)]);
    assert_eq!(
        pool.unreserve_gas(7),
        Err(GasReservationError::NoReservationIdsToUnreserve)
    );
    assert_eq!(pool.reservations_id(), vec![0, 1]);
    assert_eq!(sorted(pool.gas_reservations_data()), vec![(0, 10), (1, 10)]);
}

#[test]
fn unreserving_an_expired_id_is_not_found() {
    let mut pool = pool_with(&[(1, 0, 10), (2, 0, 50)]);
    pool.check_all_reservations_id_at(20);
    assert_eq!(pool.expired_reservations_id(), vec![0]);
    assert_eq!(
        pool.unreserve_gas(0),
        Err(GasReservationError::NoReservationIdsToUnreserve)
    );
    assert_eq!(pool.remove_reservation(0), None);
    assert_eq!(pool.reservations_id(), vec![1]);
    assert_eq!(pool.expired_reservations_id(), vec![0]);
    assert_eq!(sorted(pool.gas_reservations_data()), vec![(0, 10), (1, 50)]);
}

#[test]
fn removing_a_live_reservation_returns_it_and_keeps_the_order() {
    let mut pool = pool_with(&[(11, 0, 10), (22, 0, 20), (33, 0, 30), (44, 0, 40)]);
    assert_eq!(pool.remove_reservation(1), Some(handle(22)));
    assert_eq!(pool.reservations_id(), vec![0, 2, 3]);
    assert_eq!(sorted(pool.gas_reservations_data()), vec![(0, 10), (2, 30), (3, 40)]);
    assert_eq!(pool.remove_reservation(1), None);
    assert_eq!(pool.remove_reservation(3), Some(handle(44)));
    assert_eq!(pool.remove_reservation(0), Some(handle(11)));
    assert_eq!(pool.reservations_id(), vec![2]);
    assert_eq!(pool.gas_reservations_data(), vec![(2, 30)]);
    assert_eq!(pool.next_reservation_id(), 4);
}

#[test]
fn outcome_of_unreserving_follows_the_host() {
    assert_eq!(ContractGasReservations::unreserve_outcome(Ok(1000)), Ok(1000));
    assert_eq!(ContractGasReservations::unreserve_outcome(Ok(0)), Ok(0));
    assert_eq!(
        ContractGasReservations::unreserve_outcome(Err(CoreError::SyscallUsage)),
        Err(GasReservationError::UnableToUnreserveGas)
    );
}

#[test]
fn refusal_of_the_host_changes_nothing() {
    let mut pool = pool_with(&[(1, 0, 10)]);
    assert_eq!(
        pool.store_reservation(Err(CoreError::SyscallUsage), 3, 10),
        Err(GasReservationError::ErrorWhileDoingReservation)
    );
    assert_eq!(pool.reservations_id(), vec![0]);
    assert_eq!(pool.expired_reservations_id(), Vec::<u64>::new());
    assert_eq!(pool.gas_reservations_data(), vec![(0, 10)]);
    assert_eq!(pool.next_reservation_id(), 1);
}

#[test]
fn last_id_is_minted_and_then_the_ids_are_exhausted() {
    let mut pool = ContractGasReservations::starting_at(u64::MAX - 1);
    assert_eq!(pool.store_reservation(Ok(handle(1)), 0, 10), Ok(()));
    assert_eq!(pool.reservations_id(), vec![u64::MAX - 1]);
    assert_eq!(pool.next_reservation_id(), u64::MAX);
    assert_eq!(
        pool.store_reservation(Ok(handle(2)), 0, 10),
        Err(GasReservationError::GasReservationIdOverflow)
    );
    assert_eq!(pool.reservations_id(), vec![u64::MAX - 1]);
    assert_eq!(pool.gas_reservations_data(), vec![(u64::MAX - 1, 10)]);
    assert_eq!(pool.next_reservation_id(), u64::MAX);
}

#[test]
fn refusal_of_the_host_comes_before_exhaustion() {
    let mut pool = ContractGasReservations::starting_at(u64::MAX);
    assert_eq!(
        pool.store_reservation(Err(CoreError::SyscallUsage), 0, 10),
        Err(GasReservationError::ErrorWhileDoingReservation)
    );
    assert_eq!(
        pool.store_reservation(Ok(handle(2)), 0, 10),
        Err(GasReservationError::GasReservationIdOverflow)
    );
    assert_eq!(pool.gas_reservations_data(), Vec::<(u64, u32)>::new());
}

#[test]
fn expiry_stops_at_the_last_block() {
    let mut pool = ContractGasReservations::new();
    assert_eq!(pool.store_reservation(Ok(handle(1)), u32::MAX - 1, 10), Ok(()));
    assert_eq!(pool.store_reservation(Ok(handle(2)), u32::MAX - 10, 10), Ok(()));
    assert_eq!(pool.store_reservation(Ok(handle(3)), 0, u32::MAX), Ok(()));
    assert_eq!(pool.store_reservation(Ok(handle(4)), u32::MAX, u32::MAX), Ok(()));
    assert_eq!(
        sorted(pool.gas_reservations_data()),
        vec![(0, u32::MAX), (1, u32::MAX), (2, u32::MAX), (3, u32::MAX)]
    );
    pool.check_all_reservations_id_at(u32::MAX);
    assert_eq!(pool.reservations_id(), vec![0, 1, 2, 3]);
    assert_eq!(pool.get_reservation_id_at(u32::MAX), Some(handle(4)));
}

#[test]
fn minted_ids_are_distinct_and_rise() {
    let mut pool = ContractGasReservations::new();
    let mut minted: Vec<u64> = Vec::new();
    for round in 0..5u64 {
        minted.push(pool.next_reservation_id());
        assert_eq!(pool.store_reservation(Ok(handle(round)), 0, 1), Ok(()));
        minted.push(pool.next_reservation_id());
        assert_eq!(pool.store_reservation(Ok(handle(100 + round)), 0, 100), Ok(()));
        assert_eq!(pool.get_reservation_id_at(50), Some(handle(100 + round)));
        pool.check_all_reservations_id_at(50);
        pool.remove_expired_reservations_id();
        assert_eq!(pool.gas_reservations_data(), Vec::<(u64, u32)>::new());
    }
    assert_eq!(minted, vec![0, 1, 2, 3, 4, 5, 6, 7, 8, 9]);
    assert_eq!(pool.next_reservation_id(), 10);
}

#[test]
fn failed_attempts_mint_no_id() {
    let mut pool = pool_with(&[(1, 0, 10)]);
    assert!(pool.store_reservation(Err(CoreError::SyscallUsage), 0, 10).is_err());
    assert_eq!(pool.store_reservation(Ok(handle(2)), 0, 10), Ok(()));
    assert_eq!(pool.reservations_id(), vec![0, 1]);
}

#[test]
fn withdrawal_prefers_the_most_recent_reservation() {
    let mut pool = pool_with(&[(11, 0, 100), (22, 0, 100), (33, 0, 100)]);
    assert_eq!(pool.get_reservation_id_at(1), Some(handle(33)));
    assert_eq!(pool.reservations_id(), vec![0, 1]);
    assert_eq!(pool.get_reservation_id_at(1), Some(handle(22)));
    assert_eq!(pool.get_reservation_id_at(1), Some(handle(11)));
    assert_eq!(pool.get_reservation_id_at(1), None);
    assert_eq!(pool.expired_reservations_id(), Vec::<u64>::new());
}

#[test]
fn withdrawal_moves_the_expired_ids_it_meets() {
    let mut pool = pool_with(&[(11, 0, 10), (22, 0, 100), (33, 0, 20), (44, 0, 30)]);
    assert_eq!(pool.get_reservation_id_at(50), Some(handle(22)));
    assert_eq!(pool.reservations_id(), vec![0]);
    assert_eq!(pool.expired_reservations_id(), vec![3, 2]);
    assert_eq!(sorted(pool.gas_reservations_data()), vec![(0, 10), (2, 20), (3, 30)]);
    assert_eq!(pool.get_reservation_id_at(50), None);
    assert_eq!(pool.reservations_id(), Vec::<u64>::new());
    assert_eq!(pool.expired_reservations_id(), vec![3, 2, 0]);
    assert_eq!(sorted(pool.gas_reservations_data()), vec![(0, 10), (2, 20), (3, 30)]);
}

#[test]
fn withdrawn_record_is_gone_and_not_handed_out_again() {
    let mut pool = pool_with(&[(11, 0, 100), (22, 0, 100)]);
    let first = pool.get_reservation_id_at(100);
    assert_eq!(first, Some(handle(22)));
    assert_eq!(pool.gas_reservations_data(), vec![(0, 100)]);
    let second = pool.get_reservation_id_at(100);
    assert_eq!(second, Some(handle(11)));
    assert_ne!(first, second);
    assert_eq!(pool.gas_reservations_data(), Vec::<(u64, u32)>::new());
    assert_eq!(pool.get_reservation_id_at(100), None);
}

#[test]
fn withdrawal_from_an_empty_pool_gives_nothing() {
    let mut pool = ContractGasReservations::new();
    assert_eq!(pool.get_reservation_id_at(0), None);
    assert_eq!(pool.reservations_id(), Vec::<u64>::new());
    assert_eq!(pool.expired_reservations_id(), Vec::<u64>::new());
    assert_eq!(pool.gas_reservations_data(), Vec::<(u64, u32)>::new());
}

#[test]
fn withdrawal_from_an_expired_pool_gives_nothing_and_keeps_the_records() {
    let mut pool = pool_with(&[(11, 0, 10), (22, 0, 20), (33, 0, 30)]);
    assert_eq!(pool.get_reservation_id_at(31), None);
    assert_eq!(pool.reservations_id(), Vec::<u64>::new());
    assert_eq!(pool.expired_reservations_id(), vec![2, 1, 0]);
    assert_eq!(sorted(pool.gas_reservations_data()), vec![(0, 10), (1, 20), (2, 30)]);
    assert_eq!(pool.next_reservation_id(), 3);
}

#[test]
fn sweep_parts_the_live_ids_in_their_order() {
    let mut pool = pool_with(&[(11, 0, 10), (22, 0, 100), (33, 0, 20), (44, 0, 200), (55, 0, 5)]);
    pool.check_all_reservations_id_at(20);
    assert_eq!(pool.reservations_id(), vec![1, 2, 3]);
    assert_eq!(pool.expired_reservations_id(), vec![0, 4]);
    pool.check_all_reservations_id_at(21);
    assert_eq!(pool.reservations_id(), vec![1, 3]);
    assert_eq!(pool.expired_reservations_id(), vec![0, 4, 2]);
    assert_eq!(
        sorted(pool.gas_reservations_data()),
        vec![(0, 10), (1, 100), (2, 20), (3, 200), (4, 5)]
    );
}

#[test]
fn sweep_keeps_a_reservation_on_the_block_of_its_expiry() {
    let mut pool = pool_with(&[(1000, 5, 10)]);
    pool.check_all_reservations_id_at(15);
    assert_eq!(pool.reservations_id(), vec![0]);
    assert_eq!(pool.expired_reservations_id(), Vec::<u64>::new());
    pool.check_all_reservations_id_at(16);
    assert_eq!(pool.reservations_id(), Vec::<u64>::new());
    assert_eq!(pool.expired_reservations_id(), vec![0]);
}

#[test]
fn sweep_of_an_empty_pool_changes_nothing() {
    let mut pool = ContractGasReservations::new();
    pool.check_all_reservations_id_at(9);
    assert_eq!(pool.reservations_id(), Vec::<u64>::new());
    assert_eq!(pool.expired_reservations_id(), Vec::<u64>::new());
}

#[test]
fn second_sweep_at_the_same_block_changes_nothing() {
    let mut pool = pool_with(&[(11, 0, 10), (22, 0, 100), (33, 0, 20)]);
    pool.check_all_reservations_id_at(15);
    let live = pool.reservations_id();
    let expired = pool.expired_reservations_id();
    let data = sorted(pool.gas_reservations_data());
    assert_eq!(live, vec![1, 2]);
    assert_eq!(expired, vec![0]);
    pool.check_all_reservations_id_at(15);
    assert_eq!(pool.reservations_id(), live);
    assert_eq!(pool.expired_reservations_id(), expired);
    assert_eq!(sorted(pool.gas_reservations_data()), data);
}

#[test]
fn purge_drops_the_expired_records_only() {
    let mut pool = pool_with(&[(11, 0, 10), (22, 0, 100), (33, 0, 20)]);
    pool.check_all_reservations_id_at(50);
    assert_eq!(pool.expired_reservations_id(), vec![0, 2]);
    pool.remove_expired_reservations_id();
    assert_eq!(pool.reservations_id(), vec![1]);
    assert_eq!(pool.expired_reservations_id(), Vec::<u64>::new());
    assert_eq!(pool.gas_reservations_data(), vec![(1, 100)]);
    assert_eq!(pool.next_reservation_id(), 3);
}

#[test]
fn second_purge_changes_nothing() {
    let mut pool = pool_with(&[(11, 0, 10), (22, 0, 100), (33, 0, 20)]);
    pool.check_all_reservations_id_at(50);
    pool.remove_expired_reservations_id();
    let data = pool.gas_reservations_data();
    pool.remove_expired_reservations_id();
    assert_eq!(pool.gas_reservations_data(), data);
    assert_eq!(pool.reservations_id(), vec![1]);
    assert_eq!(pool.expired_reservations_id(), Vec::<u64>::new());
}

#[test]
fn purge_without_expired_ids_changes_nothing() {
    let mut pool = pool_with(&[(11, 0, 10), (22, 0, 100)]);
    pool.remove_expired_reservations_id();
    assert_eq!(pool.reservations_id(), vec![0, 1]);
    assert_eq!(sorted(pool.gas_reservations_data()), vec![(0, 10), (1, 100)]);
}

#[test]
fn purged_ids_are_not_minted_again() {
    let mut pool = pool_with(&[(11, 0, 10), (22, 0, 10)]);
    pool.check_all_reservations_id_at(11);
    pool.remove_expired_reservations_id();
    assert_eq!(pool.store_reservation(Ok(handle(33)), 11, 10), Ok(()));
    assert_eq!(pool.reservations_id(), vec![2]);
    assert_eq!(pool.gas_reservations_data(), vec![(2, 21)]);
}

#[test]
fn expiry_is_strict() {
    let data = GasReservationData::new(handle(1), 15);
    assert!(!ContractGasReservations::gas_reservation_id_is_expired_at(&data, 0));
    assert!(!ContractGasReservations::gas_reservation_id_is_expired_at(&data, 14));
    assert!(!ContractGasReservations::gas_reservation_id_is_expired_at(&data, 15));
    assert!(ContractGasReservations::gas_reservation_id_is_expired_at(&data, 16));
    assert!(ContractGasReservations::gas_reservation_id_is_expired_at(&data, u32::MAX));
    let never = GasReservationData::new(handle(1), u32::MAX);
    assert!(!ContractGasReservations::gas_reservation_id_is_expired_at(&never, u32::MAX));
}

#[test]
fn fresh_reservation_one_block_late_ends_among_the_expired_ids() {
    let mut first = ContractGasReservations::new();
    assert_eq!(first.store_reservation(Ok(handle(1000)), 5, 10), Ok(()));
    assert_eq!(first.gas_reservations_data(), vec![(0, 15)]);
    assert_eq!(first.get_reservation_id_at(15), Some(handle(1000)));

    let mut second = ContractGasReservations::new();
    assert_eq!(second.store_reservation(Ok(handle(1000)), 5, 10), Ok(()));
    assert_eq!(second.get_reservation_id_at(16), None);
    assert!(second.expired_reservations_id().contains(&0));
}

#[test]
fn pool_can_start_at_any_id() {
    let mut pool = ContractGasReservations::starting_at(40);
    assert_eq!(pool.next_reservation_id(), 40);
    assert_eq!(pool.reservations_id(), Vec::<u64>::new());
    assert_eq!(pool.expired_reservations_id(), Vec::<u64>::new());
    assert_eq!(pool.gas_reservations_data(), Vec::<(u64, u32)>::new());
    assert_eq!(pool.store_reservation(Ok(handle(1)), 2, 3), Ok(()));
    assert_eq!(pool.store_reservation(Ok(handle(2)), 2, 4), Ok(()));
    assert_eq!(pool.reservations_id(), vec![40, 41]);
    assert_eq!(sorted(pool.gas_reservations_data()), vec![(40, 5), (41, 6)]);
    assert_eq!(pool.remove_reservation(40), Some(handle(1)));
    assert_eq!(pool.remove_reservation(0), None);
}

#[test]
fn lists_and_records_stay_in_step() {
    let mut pool = ContractGasReservations::new();
    let mut seed: u64 = 12345;
    let mut now: u32 = 0;
    let mut made: u64 = 0;
    let mut handed_out: Vec<ReservationId> = Vec::new();
    let mut highest_live: Option<u64> = None;
    for _ in 0..400 {
        seed = seed.wrapping_mul(6364136223846793005).wrapping_add(1442695040888963407);
        let choice = (seed >> 33) % 6;
        let amount = ((seed >> 40) % 7) as u32;
        match choice {
            0 | 1 => {
                let id_before = pool.next_reservation_id();
                assert_eq!(pool.store_reservation(Ok(handle(made)), now, amount), Ok(()));
                made += 1;
                assert_eq!(pool.next_reservation_id(), id_before + 1);
                assert_eq!(pool.reservations_id().last(), Some(&id_before));
                if let Some(highest) = highest_live {
                    assert!(id_before > highest);
                }
                highest_live = Some(id_before);
            }
            2 => {
                if let Some(got) = pool.get_reservation_id_at(now) {
                    assert!(!handed_out.contains(&got));
                    handed_out.push(got);
                }
            }
            3 => pool.check_all_reservations_id_at(now),
            4 => pool.remove_expired_reservations_id(),
            _ => {
                let _ = pool.remove_reservation(u64::from(amount));
            }
        }
        now += amount % 3;

        let live = pool.reservations_id();
        let expired = pool.expired_reservations_id();
        let mut listed: Vec<u64> = live.iter().chain(expired.iter()).copied().collect();
        listed.sort();
        let mut distinct = listed.clone();
        distinct.dedup();
        assert_eq!(listed, distinct);
        let recorded: Vec<u64> = sorted(pool.gas_reservations_data())
            .into_iter()
            .map(|(id, _)| id)
            .collect();
        assert_eq!(recorded, listed);
        assert!(listed.iter().all(|id| *id < pool.next_reservation_id()));
    }
    assert!(!handed_out.is_empty());
}
