//! A single-pass ledger engine.
//!
//! The engine replays a sequence of financial actions — fund transfers,
//! disputes and settlements — against two in-memory stores, one per client
//! account and one per transfer, enforcing strict state-machine and balance
//! rules. Each action either commits in full or is rejected with a typed
//! error that leaves both stores unchanged (apart from the lazy creation of
//! the addressed client account).
//!
//! Monetary values are carried as signed integers in minor units; positive
//! values are deposits, negative values are withdrawals. Parsing input rows
//! and rendering output rows are the concern of the surrounding adapter, not
//! of this crate.
//!
//! Each transfer record remembers the client that made it, and a dispute or
//! settlement that names any other client is rejected with `ClientMismatch`:
//! the stricter of the two behaviours the engine's history allows, chosen
//! here so that every balance is, provably, a sum over its own client's
//! transfer records.

pub mod types;
pub mod store;
pub mod csv;
