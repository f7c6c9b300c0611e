//! A pool of time-bound gas reservations for a Gear program.
//!
//! A reservation is a pre-paid amount of gas that the host keeps for a fixed
//! number of blocks. The pool mints a local id for each reservation it holds,
//! hands out a still-valid one on demand (most recently made first), moves the
//! ids of those that ran out to a list of their own, and drops their records
//! when asked.

pub mod gas_reservation_state;
pub mod host;
pub mod laws;
pub mod mini_tamagotchi_state;
pub mod pool_state;
pub mod reservation_table;
pub mod seq_lemmas;
