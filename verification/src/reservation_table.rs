//! The records of the pool, keyed by pool id, held in the hash map that
//! `sails_rs::collections` hands on from `hashbrown`.
//!
//! Verus cannot look into that map, so the struct that holds it is opaque, what
//! it holds has a name, [`table_records`], and each method of the map that the
//! pool calls stands behind a function whose contract is believed, not proved.

use crate::gas_reservation_state::GasReservationData;
use sails_rs::collections::HashMap;
use vstd::prelude::*;

verus! {

/// The map from pool id to record.
#[verifier::external_body]
pub struct ReservationTable {
    entries: HashMap<u64, GasReservationData>,
}

/// What a table holds: the record stored under each id.
pub uninterp spec fn table_records(table: ReservationTable) -> Map<u64, GasReservationData>;

/// The pairs of an id and the last usable block of its record, for every
/// record of `records`.
pub open spec fn expiry_pairs(records: Map<u64, GasReservationData>) -> Set<(u64, u32)> {
    Set::new(
        |pair: (u64, u32)|
            records.dom().contains(pair.0) && records[pair.0].expire_at_block == pair.1,
    )
}

/// Calls `HashMap::new`: a table that holds nothing.
#[verifier::external_body]
pub(crate) fn table_new() -> (table: ReservationTable)
    ensures
        table_records(table) == (Map::<u64, GasReservationData>::empty()),
{
    ReservationTable { entries: HashMap::new() }
}

/// Calls `HashMap::insert`: afterwards `id` maps to `data`, and the other ids
/// map to what they did. The map hands back the record that `id` had before,
/// if any, and so does this.
#[verifier::external_body]
pub(crate) fn table_insert(table: &mut ReservationTable, id: u64, data: GasReservationData) -> (before:
    Option<GasReservationData>)
    ensures
        table_records(*final(table)) == table_records(*old(table)).insert(id, data),
        before == (if table_records(*old(table)).dom().contains(id) {
            Some(table_records(*old(table))[id])
        } else {
            None
        }),
{
    table.entries.insert(id, data)
}

/// Calls `HashMap::contains_key`: whether a record is stored under `id`.
#[verifier::external_body]
pub(crate) fn table_contains_key(table: &ReservationTable, id: u64) -> (present: bool)
    ensures
        present == table_records(*table).dom().contains(id),
{
    table.entries.contains_key(&id)
}

/// Calls `HashMap::get`: the record stored under `id`, if there is one.
#[verifier::external_body]
pub(crate) fn table_get(table: &ReservationTable, id: u64) -> (found: Option<&GasReservationData>)
    ensures
        found == (if table_records(*table).dom().contains(id) {
            Some(&table_records(*table)[id])
        } else {
            None
        }),
{
    table.entries.get(&id)
}

/// Calls `HashMap::remove`: takes the record stored under `id` out of the
/// table and returns it; a table without such a record stays as it is.
#[verifier::external_body]
pub(crate) fn table_remove(table: &mut ReservationTable, id: u64) -> (removed: Option<
    GasReservationData,
>)
    ensures
        table_records(*final(table)) == table_records(*old(table)).remove(id),
        removed == (if table_records(*old(table)).dom().contains(id) {
            Some(table_records(*old(table))[id])
        } else {
            None
        }),
{
    table.entries.remove(&id)
}

/// Calls `HashMap::iter`, which visits every entry once, in an order that it
/// does not fix, and takes from each the id and the last usable block: every
/// record gives one pair, and no pair comes twice.
#[verifier::external_body]
pub(crate) fn table_expiry_pairs(table: &ReservationTable) -> (pairs: Vec<(u64, u32)>)
    ensures
        pairs@.no_duplicates(),
        pairs@.to_set() == expiry_pairs(table_records(*table)),
{
    table.entries.iter().map(|(id, data)| (*id, data.expire_at_block)).collect()
}

} // verus!
