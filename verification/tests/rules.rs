//! Rule-by-rule checks: every rejection comes with the right error, leaves
//! the stores unchanged, and repeated actions are no-op errors the second
//! time. Amounts are in minor units.

use simple_payments_engine::store::client::{self, Access};
use simple_payments_engine::store::error::Error;
use simple_payments_engine::store::Store;
use simple_payments_engine::types::{
    Action, ActionKind, ClientId, Settle, SettleAction, Transfer, TransferId,
};

#[test]
fn it_works() {
    let result: i32 = 2 + 2;
    assert_eq!(result, 4);
}

fn transfer(client: u16, tx: u32, value: i64) -> Action {
    Action {
        client_id: ClientId(client),
        transfer_id: TransferId(tx),
        kind: ActionKind::Transfer(Transfer { value }),
    }
}

fn dispute(client: u16, tx: u32) -> Action {
    Action {
        client_id: ClientId(client),
        transfer_id: TransferId(tx),
        kind: ActionKind::Dispute,
    }
}

fn settle(client: u16, tx: u32, action: SettleAction) -> Action {
    Action {
        client_id: ClientId(client),
        transfer_id: TransferId(tx),
        kind: ActionKind::Settle(Settle { action }),
    }
}

#[test]
fn available_is_total_minus_held() {
    let mut store = Store::default();
    store.apply(transfer(1, 1, 10000)).unwrap();
    store.apply(transfer(1, 2, 20000)).unwrap();
    store.apply(dispute(1, 2)).unwrap();
    let clients = store.into_client_store();
    let state = clients.get(ClientId(1)).unwrap();
    assert_eq!(state.available(), state.total - state.held);
    assert_eq!(state.available(), 10000);
}

#[test]
fn duplicate_transfer_id_is_rejected() {
    let mut store = Store::default();
    store.apply(transfer(1, 1, 10000)).unwrap();
    let err = store.apply(transfer(1, 1, 5000)).unwrap_err();
    assert!(matches!(err, Error::TransferConflict { transfer_id: TransferId(1), .. }));
    // A duplicate under another client is rejected too: ids are global.
    let err = store.apply(transfer(2, 1, 5000)).unwrap_err();
    assert!(matches!(err, Error::TransferConflict { transfer_id: TransferId(1), .. }));
    let clients = store.into_client_store();
    let state = clients.get(ClientId(1)).unwrap();
    assert_eq!((state.total, state.held), (10000, 0));
}

#[test]
fn duplicate_deposit_does_not_double_apply() {
    let mut store = Store::default();
    store.apply(transfer(1, 1, 10000)).unwrap();
    let _ = store.apply(transfer(1, 1, 10000));
    let clients = store.into_client_store();
    assert_eq!(clients.get(ClientId(1)).unwrap().total, 10000);
}

#[test]
fn dispute_of_unknown_transfer_is_rejected() {
    let mut store = Store::default();
    let err = store.apply(dispute(1, 9)).unwrap_err();
    assert!(matches!(err, Error::TransferNotFound { transfer_id: TransferId(9) }));
    let err = store.apply(settle(1, 9, SettleAction::Resolve)).unwrap_err();
    assert!(matches!(err, Error::TransferNotFound { transfer_id: TransferId(9) }));
    let err = store.apply(settle(1, 9, SettleAction::Chargeback)).unwrap_err();
    assert!(matches!(err, Error::TransferNotFound { transfer_id: TransferId(9) }));
}

#[test]
fn second_dispute_is_a_no_op_error() {
    let mut store = Store::default();
    store.apply(transfer(1, 1, 10000)).unwrap();
    store.apply(dispute(1, 1)).unwrap();
    let err = store.apply(dispute(1, 1)).unwrap_err();
    assert!(matches!(err, Error::TransferConflict { transfer_id: TransferId(1), .. }));
    let clients = store.into_client_store();
    let state = clients.get(ClientId(1)).unwrap();
    assert_eq!((state.total, state.held), (10000, 10000));
}

#[test]
fn second_resolve_is_a_no_op_error() {
    let mut store = Store::default();
    store.apply(transfer(1, 1, 10000)).unwrap();
    store.apply(dispute(1, 1)).unwrap();
    store.apply(settle(1, 1, SettleAction::Resolve)).unwrap();
    let err = store.apply(settle(1, 1, SettleAction::Resolve)).unwrap_err();
    assert!(matches!(err, Error::TransferConflict { transfer_id: TransferId(1), .. }));
    let clients = store.into_client_store();
    let state = clients.get(ClientId(1)).unwrap();
    assert_eq!((state.total, state.held), (10000, 0));
}

#[test]
fn resolve_without_dispute_is_rejected() {
    let mut store = Store::default();
    store.apply(transfer(1, 1, 10000)).unwrap();
    let err = store.apply(settle(1, 1, SettleAction::Resolve)).unwrap_err();
    assert!(matches!(err, Error::TransferConflict { transfer_id: TransferId(1), .. }));
    let err = store.apply(settle(1, 1, SettleAction::Chargeback)).unwrap_err();
    assert!(matches!(err, Error::TransferConflict { transfer_id: TransferId(1), .. }));
}

#[test]
fn overdraft_is_rejected_and_account_unchanged() {
    let mut store = Store::default();
    store.apply(transfer(1, 1, 10000)).unwrap();
    let err = store.apply(transfer(1, 2, -10001)).unwrap_err();
    assert!(matches!(err, Error::InsufficientFunds { client_id: ClientId(1), .. }));
    // The exact boundary is fine: available may reach zero.
    store.apply(transfer(1, 3, -10000)).unwrap();
    let clients = store.into_client_store();
    let state = clients.get(ClientId(1)).unwrap();
    assert_eq!((state.total, state.held), (0, 0));
    assert_eq!(state.access, Access::Active);
}

#[test]
fn disputed_funds_are_not_available_for_withdrawal() {
    let mut store = Store::default();
    store.apply(transfer(1, 1, 10000)).unwrap();
    store.apply(dispute(1, 1)).unwrap();
    let err = store.apply(transfer(1, 2, -1)).unwrap_err();
    assert!(matches!(err, Error::InsufficientFunds { client_id: ClientId(1), .. }));
}

#[test]
fn locked_account_rejects_every_action() {
    let mut store = Store::default();
    store.apply(transfer(1, 1, 10000)).unwrap();
    store.apply(transfer(1, 2, 20000)).unwrap();
    store.apply(dispute(1, 1)).unwrap();
    store.apply(settle(1, 1, SettleAction::Chargeback)).unwrap();
    let deposit_err = store.apply(transfer(1, 3, 5000)).unwrap_err();
    assert!(matches!(
        deposit_err,
        Error::Client(client::Error::ClientLocked { client_id: ClientId(1) })
    ));
    let dispute_err = store.apply(dispute(1, 2)).unwrap_err();
    assert!(matches!(
        dispute_err,
        Error::Client(client::Error::ClientLocked { client_id: ClientId(1) })
    ));
    let settle_err = store.apply(settle(1, 2, SettleAction::Resolve)).unwrap_err();
    assert!(matches!(
        settle_err,
        Error::Client(client::Error::ClientLocked { client_id: ClientId(1) })
    ));
    let clients = store.into_client_store();
    let state = clients.get(ClientId(1)).unwrap();
    assert_eq!((state.total, state.held), (20000, 0));
    assert_eq!(state.access, Access::Locked);
}

#[test]
fn dispute_by_wrong_client_is_rejected() {
    let mut store = Store::default();
    store.apply(transfer(1, 1, 10000)).unwrap();
    let err = store.apply(dispute(2, 1)).unwrap_err();
    assert!(matches!(
        err,
        Error::ClientMismatch { transfer_id: TransferId(1), client_id: ClientId(2) }
    ));
    let err = store.apply(settle(2, 1, SettleAction::Chargeback)).unwrap_err();
    assert!(matches!(
        err,
        Error::ClientMismatch { transfer_id: TransferId(1), client_id: ClientId(2) }
    ));
    let clients = store.into_client_store();
    let state = clients.get(ClientId(1)).unwrap();
    assert_eq!((state.total, state.held), (10000, 0));
}

#[test]
fn balances_outgrow_single_transfer_range() {
    // Two deposits of the largest single-transfer value: the account total
    // is wider than any one transfer and keeps exact count.
    let mut store = Store::default();
    store.apply(transfer(1, 1, i64::MAX)).unwrap();
    store.apply(transfer(1, 2, i64::MAX)).unwrap();
    let clients = store.into_client_store();
    let state = clients.get(ClientId(1)).unwrap();
    assert_eq!(state.total, 2 * (i64::MAX as i128));
    assert_eq!(state.available(), 2 * (i64::MAX as i128));
}

#[test]
fn disputed_withdrawal_lowers_held() {
    // A withdrawal's value is negative, so disputing it lowers `held`;
    // the signed representation carries through unchanged.
    let mut store = Store::default();
    store.apply(transfer(1, 1, 10000)).unwrap();
    store.apply(transfer(1, 2, -4000)).unwrap();
    store.apply(dispute(1, 2)).unwrap();
    let clients = store.into_client_store();
    let state = clients.get(ClientId(1)).unwrap();
    assert_eq!((state.total, state.held), (6000, -4000));
    assert_eq!(state.available(), 10000);
}
