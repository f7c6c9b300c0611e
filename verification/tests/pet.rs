use gas_reservations::gas_reservation_state::ContractGasReservations;
use gas_reservations::mini_tamagotchi_state::MiniTamagotchi;
use gas_reservations::mini_tamagotchi_state::MiniTamagotchiEvents;
use gstd::ReservationId;

fn pool_with_one(n: u64, now: u32, duration: u32) -> ContractGasReservations {
    let mut pool = ContractGasReservations::new();
    assert_eq!(pool.store_reservation(Ok(ReservationId::from(n)), now, duration), Ok(()));
    pool
}

#[test]
fn new_pet_is_hungry_and_idle() {
    let pet = MiniTamagotchi::new("no name".to_string());
    assert_eq!(pet.name, "no name");
    assert!(!pet.is_playing);
    assert!(pet.is_hungry);
    assert_eq!(
        pet.tamagotchi_name(),
        MiniTamagotchiEvents::TamagotchiName("no name".to_string())
    );
    assert_eq!(pet.tamagotchi_is_playing(), MiniTamagotchiEvents::TamagotchiIsNotPlaying);
    assert_eq!(pet.tamagotchi_is_hungry(), MiniTamagotchiEvents::TamagotchiIsHungry);
}

#[test]
fn pet_takes_a_new_name() {
    let mut pet = MiniTamagotchi::new("a".to_string());
    assert_eq!(pet.change_name("b".to_string()), MiniTamagotchiEvents::TamagotchiNameChanged);
    assert_eq!(pet.name, "b");
    assert!(pet.is_hungry);
    assert!(!pet.is_playing);
}

#[test]
fn pet_plays_when_a_reservation_pays() {
    let mut pet = MiniTamagotchi::new("a".to_string());
    let mut pool = pool_with_one(7, 0, 10);
    let (event, pays) = pet.send_tamagotchi_to_play(&mut pool, 10);
    assert_eq!(event, MiniTamagotchiEvents::TamagotchiIsPlaying);
    assert_eq!(pays, Some(ReservationId::from(7)));
    assert!(pet.is_playing);
    assert_eq!(pet.tamagotchi_is_playing(), MiniTamagotchiEvents::TamagotchiIsPlaying);
    assert_eq!(pool.reservations_id(), Vec::<u64>::new());
}

#[test]
fn playing_pet_leaves_the_pool_alone() {
    let mut pet = MiniTamagotchi::new("a".to_string());
    let mut pool = pool_with_one(7, 0, 10);
    assert_eq!(pool.store_reservation(Ok(ReservationId::from(8)), 0, 10), Ok(()));
    let _ = pet.send_tamagotchi_to_play(&mut pool, 1);
    let (event, pays) = pet.send_tamagotchi_to_play(&mut pool, 1);
    assert_eq!(event, MiniTamagotchiEvents::TamagotchiIsPlaying);
    assert_eq!(pays, None);
    assert_eq!(pool.reservations_id(), vec![0]);
}

#[test]
fn pet_does_not_play_without_a_reservation() {
    let mut pet = MiniTamagotchi::new("a".to_string());
    let mut pool = pool_with_one(7, 0, 10);
    let (event, pays) = pet.send_tamagotchi_to_play(&mut pool, 11);
    assert_eq!(event, MiniTamagotchiEvents::NoReservationIdsToUnreserve);
    assert_eq!(pays, None);
    assert!(!pet.is_playing);
    assert_eq!(pool.expired_reservations_id(), vec![0]);
}

#[test]
fn only_the_program_ends_the_playing() {
    let mut pet = MiniTamagotchi::new("a".to_string());
    let mut pool = pool_with_one(7, 0, 10);
    let _ = pet.send_tamagotchi_to_play(&mut pool, 1);
    assert_eq!(
        pet.stop_playing(false),
        MiniTamagotchiEvents::OnlyContractCanSendThisMessage
    );
    assert!(pet.is_playing);
    assert_eq!(pet.stop_playing(true), MiniTamagotchiEvents::TamagotchiStopPlaying);
    assert!(!pet.is_playing);
}

#[test]
fn pet_eats_when_a_reservation_pays() {
    let mut pet = MiniTamagotchi::new("a".to_string());
    let mut pool = pool_with_one(7, 0, 10);
    let (event, pays) = pet.feed_tamagotchi(&mut pool, 3);
    assert_eq!(event, MiniTamagotchiEvents::TamagotchiAteSomething);
    assert_eq!(pays, Some(ReservationId::from(7)));
    assert!(!pet.is_hungry);
    assert_eq!(pet.tamagotchi_is_hungry(), MiniTamagotchiEvents::TamagotchiIsNotHungry);
    let (event, pays) = pet.feed_tamagotchi(&mut pool, 3);
    assert_eq!(event, MiniTamagotchiEvents::TamagotchiIsNotHungry);
    assert_eq!(pays, None);
}

#[test]
fn pet_stays_hungry_without_a_reservation() {
    let mut pet = MiniTamagotchi::new("a".to_string());
    let mut pool = ContractGasReservations::new();
    let (event, pays) = pet.feed_tamagotchi(&mut pool, 3);
    assert_eq!(event, MiniTamagotchiEvents::NoReservationIdsToUnreserve);
    assert_eq!(pays, None);
    assert!(pet.is_hungry);
}

#[test]
fn only_the_program_brings_the_hunger_back() {
    let mut pet = MiniTamagotchi::new("a".to_string());
    let mut pool = pool_with_one(7, 0, 10);
    let _ = pet.feed_tamagotchi(&mut pool, 3);
    assert_eq!(
        pet.set_tamagotchi_is_hungry(false),
        MiniTamagotchiEvents::OnlyContractCanSendThisMessage
    );
    assert!(!pet.is_hungry);
    assert_eq!(
        pet.set_tamagotchi_is_hungry(true),
        MiniTamagotchiEvents::TamagotchiIsHungry
    );
    assert!(pet.is_hungry);
}
