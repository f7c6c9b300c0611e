//! The pet that uses the pool: it plays and eats for a while, and pays with a
//! gas reservation for the message that ends the playing or brings the hunger
//! back.
//!
//! The pet decides; it sends nothing. Where a message has to go out, the
//! decision carries the reservation that pays for it.

use crate::gas_reservation_state::ContractGasReservations;
use gstd::ReservationId;
use vstd::prelude::*;

verus! {

/// The pet.
pub struct MiniTamagotchi {
    pub name: String,
    pub is_playing: bool,
    pub is_hungry: bool,
}

/// What the pet answers.
#[derive(Clone, Debug, PartialEq, Eq)]
pub enum MiniTamagotchiEvents {
    MessageDelayedSend,
    NoReservationIdsToUnreserve,
    OnlyContractCanSendThisMessage,
    TamagotchiName(String),
    TamagotchiNameChanged,
    TamagotchiStopPlaying,
    TamagotchiAteSomething,
    TamagotchiIsPlaying,
    TamagotchiIsNotPlaying,
    TamagotchiIsHungry,
    TamagotchiIsNotHungry,
}

impl MiniTamagotchi {
    /// A pet of that name: hungry, and not playing.
    pub fn new(name: String) -> (pet: Self)
        ensures
            pet.name == name,
            !pet.is_playing,
            pet.is_hungry,
    {
        Self { name, is_playing: false, is_hungry: true }
    }

    /// Gives the pet another name.
    pub fn change_name(&mut self, name: String) -> (event: MiniTamagotchiEvents)
        ensures
            event == MiniTamagotchiEvents::TamagotchiNameChanged,
            final(self).name == name,
            final(self).is_playing == old(self).is_playing,
            final(self).is_hungry == old(self).is_hungry,
    {
        self.name = name;
        MiniTamagotchiEvents::TamagotchiNameChanged
    }

    /// Ends the playing, if it is the program itself that asks; anyone else is
    /// turned away and the pet stays as it is.
    pub fn stop_playing(&mut self, caller_is_program: bool) -> (event: MiniTamagotchiEvents)
        ensures
            final(self).name == old(self).name,
            final(self).is_hungry == old(self).is_hungry,
            final(self).is_playing == (old(self).is_playing && !caller_is_program),
            event == (if caller_is_program {
                MiniTamagotchiEvents::TamagotchiStopPlaying
            } else {
                MiniTamagotchiEvents::OnlyContractCanSendThisMessage
            }),
    {
        if !caller_is_program {
            return MiniTamagotchiEvents::OnlyContractCanSendThisMessage;
        }
        self.is_playing = false;
        MiniTamagotchiEvents::TamagotchiStopPlaying
    }

    /// Makes the pet hungry, if it is the program itself that asks; anyone
    /// else is turned away and the pet stays as it is.
    pub fn set_tamagotchi_is_hungry(&mut self, caller_is_program: bool) -> (event:
        MiniTamagotchiEvents)
        ensures
            final(self).name == old(self).name,
            final(self).is_playing == old(self).is_playing,
            final(self).is_hungry == (old(self).is_hungry || caller_is_program),
            event == (if caller_is_program {
                MiniTamagotchiEvents::TamagotchiIsHungry
            } else {
                MiniTamagotchiEvents::OnlyContractCanSendThisMessage
            }),
    {
        if !caller_is_program {
            return MiniTamagotchiEvents::OnlyContractCanSendThisMessage;
        }
        self.is_hungry = true;
        MiniTamagotchiEvents::TamagotchiIsHungry
    }

    /// Sends the pet to play at block `current_block_height`.
    ///
    /// A pet that is playing goes on playing, and the pool is not touched.
    /// Otherwise a reservation is withdrawn from the pool. If there is one, the
    /// pet plays, and the reservation is returned: it pays for the delayed
    /// message that ends the playing. If there is none, the pet does not play.
    pub fn send_tamagotchi_to_play(
        &mut self,
        reservations: &mut ContractGasReservations,
        current_block_height: u32,
    ) -> (decision: (MiniTamagotchiEvents, Option<ReservationId>))
        requires
            old(reservations).wf(),
        ensures
            final(reservations).wf(),
            final(self).name == old(self).name,
            final(self).is_hungry == old(self).is_hungry,
            old(self).is_playing ==> {
                &&& decision.0 == MiniTamagotchiEvents::TamagotchiIsPlaying
                &&& decision.1 is None
                &&& final(self).is_playing
                &&& final(reservations)@ == old(reservations)@
            },
            !old(self).is_playing ==> {
                &&& final(reservations)@ == old(reservations)@.withdraw(current_block_height)
                &&& decision.1 == old(reservations)@.withdrawn(current_block_height)
                &&& final(self).is_playing == decision.1 is Some
                &&& decision.0 == (if decision.1 is Some {
                    MiniTamagotchiEvents::TamagotchiIsPlaying
                } else {
                    MiniTamagotchiEvents::NoReservationIdsToUnreserve
                })
            },
    {
        if self.is_playing {
            return (MiniTamagotchiEvents::TamagotchiIsPlaying, None);
        }
        let reservation_id = match reservations.get_reservation_id_at(current_block_height) {
            Some(reservation_id) => reservation_id,
            None => {
                return (MiniTamagotchiEvents::NoReservationIdsToUnreserve, None);
            },
        };
        self.is_playing = true;
        (MiniTamagotchiEvents::TamagotchiIsPlaying, Some(reservation_id))
    }

    /// Feeds the pet at block `current_block_height`.
    ///
    /// A pet that is not hungry is not fed, and the pool is not touched.
    /// Otherwise a reservation is withdrawn from the pool. If there is one, the
    /// pet has eaten, and the reservation is returned: it pays for the delayed
    /// message that brings the hunger back. If there is none, the pet stays
    /// hungry.
    pub fn feed_tamagotchi(
        &mut self,
        reservations: &mut ContractGasReservations,
        current_block_height: u32,
    ) -> (decision: (MiniTamagotchiEvents, Option<ReservationId>))
        requires
            old(reservations).wf(),
        ensures
            final(reservations).wf(),
            final(self).name == old(self).name,
            final(self).is_playing == old(self).is_playing,
            !old(self).is_hungry ==> {
                &&& decision.0 == MiniTamagotchiEvents::TamagotchiIsNotHungry
                &&& decision.1 is None
                &&& !final(self).is_hungry
                &&& final(reservations)@ == old(reservations)@
            },
            old(self).is_hungry ==> {
                &&& final(reservations)@ == old(reservations)@.withdraw(current_block_height)
                &&& decision.1 == old(reservations)@.withdrawn(current_block_height)
                &&& final(self).is_hungry == decision.1 is None
                &&& decision.0 == (if decision.1 is Some {
                    MiniTamagotchiEvents::TamagotchiAteSomething
                } else {
                    MiniTamagotchiEvents::NoReservationIdsToUnreserve
                })
            },
    {
        if !self.is_hungry {
            return (MiniTamagotchiEvents::TamagotchiIsNotHungry, None);
        }
        let reservation_id = match reservations.get_reservation_id_at(current_block_height) {
            Some(reservation_id) => reservation_id,
            None => {
                return (MiniTamagotchiEvents::NoReservationIdsToUnreserve, None);
            },
        };
        self.is_hungry = false;
        (MiniTamagotchiEvents::TamagotchiAteSomething, Some(reservation_id))
    }

    /// The pet's name.
    pub fn tamagotchi_name(&self) -> (event: MiniTamagotchiEvents)
        ensures
            event == MiniTamagotchiEvents::TamagotchiName(self.name),
    {
        MiniTamagotchiEvents::TamagotchiName(self.name.clone())
    }

    /// Whether the pet is playing.
    pub fn tamagotchi_is_playing(&self) -> (event: MiniTamagotchiEvents)
        ensures
            event == (if self.is_playing {
                MiniTamagotchiEvents::TamagotchiIsPlaying
            } else {
                MiniTamagotchiEvents::TamagotchiIsNotPlaying
            }),
    {
        if self.is_playing {
            MiniTamagotchiEvents::TamagotchiIsPlaying
        } else {
            MiniTamagotchiEvents::TamagotchiIsNotPlaying
        }
    }

    /// Whether the pet is hungry.
    pub fn tamagotchi_is_hungry(&self) -> (event: MiniTamagotchiEvents)
        ensures
            event == (if self.is_hungry {
                MiniTamagotchiEvents::TamagotchiIsHungry
            } else {
                MiniTamagotchiEvents::TamagotchiIsNotHungry
            }),
    {
        if self.is_hungry {
            MiniTamagotchiEvents::TamagotchiIsHungry
        } else {
            MiniTamagotchiEvents::TamagotchiIsNotHungry
        }
    }
}

} // verus!
