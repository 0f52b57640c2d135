//! End-to-end scenarios: streams of actions replayed against a fresh store,
//! checked against the final account snapshots. Amounts are in minor units;
//! 10000 stands for 1.0 of the currency.

use simple_payments_engine::store::client::{Access, State, Store as ClientStore};
use simple_payments_engine::store::Store;
use simple_payments_engine::types::{
    Action, ActionKind, ClientId, Settle, SettleAction, Transfer, TransferId,
};

fn deposit(client: u16, tx: u32, value: i64) -> Action {
    assert!(value >= 0);
    Action {
        client_id: ClientId(client),
        transfer_id: TransferId(tx),
        kind: ActionKind::Transfer(Transfer { value }),
    }
}

fn withdrawal(client: u16, tx: u32, value: i64) -> Action {
    assert!(value >= 0);
    Action {
        client_id: ClientId(client),
        transfer_id: TransferId(tx),
        kind: ActionKind::Transfer(Transfer { value: -value }),
    }
}

fn dispute(client: u16, tx: u32) -> Action {
    Action {
        client_id: ClientId(client),
        transfer_id: TransferId(tx),
        kind: ActionKind::Dispute,
    }
}

fn resolve(client: u16, tx: u32) -> Action {
    Action {
        client_id: ClientId(client),
        transfer_id: TransferId(tx),
        kind: ActionKind::Settle(Settle { action: SettleAction::Resolve }),
    }
}

fn chargeback(client: u16, tx: u32) -> Action {
    Action {
        client_id: ClientId(client),
        transfer_id: TransferId(tx),
        kind: ActionKind::Settle(Settle { action: SettleAction::Chargeback }),
    }
}

fn replay(actions: &[Action]) -> ClientStore {
    let mut store = Store::default();
    for action in actions {
        // Rejected actions are skipped, as the adapter would.
        let _ = store.apply(*action);
    }
    store.into_client_store()
}

fn check(clients: &ClientStore, client: u16, available: i128, held: i128, total: i128, locked: bool) {
    let state: State = clients.get(ClientId(client)).expect("client should exist");
    assert_eq!(state.available(), available);
    assert_eq!(state.held, held);
    assert_eq!(state.total, total);
    assert_eq!(state.access == Access::Locked, locked);
}

#[test]
fn deposits_and_withdrawals() {
    let clients = replay(&[
        deposit(1, 1, 10000),
        deposit(2, 2, 20000),
        deposit(1, 3, 20000),
        withdrawal(1, 4, 15000),
        withdrawal(2, 5, 30000),
    ]);
    check(&clients, 1, 15000, 0, 15000, false);
    check(&clients, 2, 20000, 0, 20000, false);
}

#[test]
fn dispute_holds_funds_once() {
    let clients = replay(&[
        deposit(1, 1, 10000),
        deposit(1, 2, 20000),
        dispute(1, 2),
        dispute(1, 2),
    ]);
    check(&clients, 1, 10000, 20000, 30000, false);
}

#[test]
fn chargeback_locks_account_once() {
    let clients = replay(&[
        deposit(1, 1, 10000),
        deposit(1, 2, 20000),
        dispute(1, 2),
        chargeback(1, 2),
        chargeback(1, 2),
    ]);
    check(&clients, 1, 10000, 0, 10000, true);
}

#[test]
fn chargeback_may_drive_available_negative() {
    let clients = replay(&[
        deposit(1, 2, 20000),
        withdrawal(1, 3, 10000),
        dispute(1, 2),
        chargeback(1, 2),
    ]);
    check(&clients, 1, -10000, 0, -10000, true);
}

#[test]
fn rejected_action_still_materializes_account() {
    let clients = replay(&[withdrawal(1, 1, 40000)]);
    check(&clients, 1, 0, 0, 0, false);
}

#[test]
fn resolve_releases_held_funds() {
    let clients = replay(&[
        deposit(1, 1, 10000),
        dispute(1, 1),
        resolve(1, 1),
    ]);
    check(&clients, 1, 10000, 0, 10000, false);
}

#[test]
fn report_keeps_first_reference_order() {
    let clients = replay(&[
        deposit(5, 1, 10000),
        deposit(3, 2, 10000),
        deposit(5, 3, 10000),
        withdrawal(1, 4, 99999),
    ]);
    let rows = clients.entries();
    let ids: Vec<u16> = rows.iter().map(|(id, _)| id.0).collect();
    assert_eq!(ids, vec![5, 3, 1]);
}

#[test]
fn into_inner_hands_back_the_ordered_map() {
    let clients = replay(&[deposit(2, 1, 10000), deposit(1, 2, 5000)]);
    let inner = clients.into_inner();
    let keys: Vec<u16> = inner.keys().copied().collect();
    assert_eq!(keys, vec![2, 1]);
    assert_eq!(inner.get(&1), Some(&(5000, 0, false)));
    assert_eq!(inner.get(&2), Some(&(10000, 0, false)));
}
