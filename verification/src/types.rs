//! Identifier and action types consumed by the ledger engine.

use vstd::prelude::*;

verus! {

/// Identifies a client account.
#[derive(Debug, Clone, Copy, PartialEq, Eq, Hash, Structural)]
pub struct ClientId(pub u16);

/// Identifies a transfer; ids are globally unique across a whole run.
#[derive(Debug, Clone, Copy, PartialEq, Eq, Hash, Structural)]
pub struct TransferId(pub u32);

/// The payload of a fund movement, in minor units of the currency.
/// A positive value is a deposit, a negative value a withdrawal.
#[derive(Debug, Clone, Copy, PartialEq, Eq, Structural)]
pub struct Transfer {
    pub value: i64,
}

/// How a settlement closes an open dispute.
#[derive(Debug, Clone, Copy, PartialEq, Eq, Structural)]
pub enum SettleAction {
    /// Close the dispute in the client's favour, releasing the held funds.
    Resolve,
    /// Close the dispute against the client, reversing the transfer and
    /// locking the account.
    Chargeback,
}

/// The payload of a settlement action.
#[derive(Debug, Clone, Copy, PartialEq, Eq, Structural)]
pub struct Settle {
    pub action: SettleAction,
}

/// What an action does to the ledger.
#[derive(Debug, Clone, Copy, PartialEq, Eq, Structural)]
pub enum ActionKind {
    /// Move funds in or out of the client's account.
    Transfer(Transfer),
    /// Place a previous transfer's amount on hold pending resolution.
    Dispute,
    /// Close an open dispute.
    Settle(Settle),
}

/// One action against the ledger: the client it addresses, the transfer it
/// refers to, and what it does.
#[derive(Debug, Clone, Copy, PartialEq, Eq, Structural)]
pub struct Action {
    pub client_id: ClientId,
    pub transfer_id: TransferId,
    pub kind: ActionKind,
}

} // verus!
