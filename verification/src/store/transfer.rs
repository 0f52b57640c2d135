//! The per-transfer side of the ledger: one record per transfer id, created
//! once and mutated in place as disputes open and settle.

use vstd::prelude::*;

use crate::types::ClientId;
use std::collections::HashMap;

verus! {

/// Where a transfer stands in its dispute life cycle.
///
/// A record starts `Transferred`. A dispute moves it to `Disputed`; resolving
/// the dispute moves it back to `Transferred`; a chargeback moves it to
/// `Chargebacked`, which is terminal.
#[derive(Debug, Clone, Copy, PartialEq, Eq, Structural)]
pub enum Status {
    Transferred,
    Disputed,
    Chargebacked,
}

/// One transfer record: its signed value in minor units (positive for a
/// deposit, negative for a withdrawal), the client that made it, and where it
/// stands in the dispute life cycle.
#[derive(Debug, Clone, Copy)]
pub struct State {
    pub value: i64,
    pub owner: ClientId,
    pub status: Status,
}

/// The transfer store, keyed by the raw transfer id.
pub type Store = HashMap<u32, State>;

} // verus!
