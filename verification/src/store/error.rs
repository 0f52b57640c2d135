//! The errors with which the ledger rejects an action. Every rejection is
//! local and recoverable: the caller decides whether to skip or abort.

use vstd::prelude::*;

use crate::store::client;
use crate::types::{ClientId, TransferId};

verus! {

/// Why an action was rejected.
#[derive(Debug, PartialEq, Eq)]
pub enum Error {
    /// A dispute or settlement referenced a transfer id that was never seen.
    TransferNotFound { transfer_id: TransferId },
    /// The transfer id already exists, or its status does not permit the
    /// requested transition.
    TransferConflict { transfer_id: TransferId, kind: &'static str, description: &'static str },
    /// A withdrawal would have driven the available funds negative.
    InsufficientFunds { client_id: ClientId, kind: &'static str },
    /// A dispute or settlement named a client other than the one that made
    /// the transfer.
    ClientMismatch { transfer_id: TransferId, client_id: ClientId },
    /// The addressed account is locked.
    Client(client::Error),
}

} // verus!
