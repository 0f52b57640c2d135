//! The rules the ledger keeps, stated and proved once over the model.
//!
//! Each law is a proof function over [`step`](crate::store::step): whatever
//! `Store::apply` does is pinned to `step` by its contract, so these laws
//! carry over to every run of the executable store.

use vstd::prelude::*;

use crate::store::client::{
    account_of, client_index, ensure_client, has_client, set_account, unique_keys, AccountModel,
};
use crate::store::{inv, lemma_step_preserves_inv, step, Rejection, StoreModel};
use crate::types::{Action, ActionKind, Transfer};

verus! {

/// After one action, the addressed client has an account, and it sits at
/// the index that `client_index` picks.
proof fn lemma_client_present_after(m: StoreModel, action: Action)
    requires
        inv(m),
    ensures
        has_client(step(m, action).0.clients, action.client_id.0),
        unique_keys(step(m, action).0.clients),
        ensure_client(step(m, action).0.clients, action.client_id.0) == step(m, action).0.clients,
{
    let c = action.client_id.0;
    let m1c = ensure_client(m.clients, c);
    if !has_client(m.clients, c) {
        assert(m1c[m.clients.len() as int].0 == c);
    }
    assert(has_client(m1c, c));
    let i1 = client_index(m1c, c);
    assert(0 <= i1 < m1c.len() && m1c[i1].0 == c);
    lemma_step_preserves_inv(m, action);
    let post = step(m, action).0;
    assert(post.clients[i1].0 == c);
    assert(has_client(post.clients, c));
}

/// Replaying a deposit or withdrawal under a transfer id that already
/// exists is rejected as a conflict and changes neither the transfer
/// records nor any balance; only the addressed account is materialized.
///
/// A locked account is rejected earlier, with `ClientLocked`, and a
/// replayed withdrawal that would overdraw the account is rejected earlier,
/// with `InsufficientFunds`; both are left out here.
pub proof fn lemma_duplicate_transfer_rejected(m: StoreModel, action: Action, t: Transfer)
    requires
        action.kind == ActionKind::Transfer(t),
        m.transfers.dom().contains(action.transfer_id.0),
        !account_of(ensure_client(m.clients, action.client_id.0), action.client_id.0).locked,
        ({
            let acct = account_of(ensure_client(m.clients, action.client_id.0), action.client_id.0);
            !(t.value < 0 && acct.total - acct.held + t.value < 0)
        }),
    ensures
        step(m, action).1 == Err::<(), Rejection>(Rejection::TransferConflict),
        step(m, action).0.transfers == m.transfers,
        step(m, action).0.clients == ensure_client(m.clients, action.client_id.0),
{
}

/// A dispute of a transfer that does not exist, or that does not stand
/// `Transferred`, is rejected and changes nothing; only the addressed
/// account is materialized.
///
/// A locked account is rejected with `ClientLocked` instead, and a dispute
/// by a client other than the transfer's owner with `ClientMismatch`; both
/// are left out here.
pub proof fn lemma_dispute_wrong_status_rejected(m: StoreModel, action: Action)
    requires
        action.kind is Dispute,
        !account_of(ensure_client(m.clients, action.client_id.0), action.client_id.0).locked,
        m.transfers.dom().contains(action.transfer_id.0) ==> {
            let r = m.transfers[action.transfer_id.0];
            r.owner.0 == action.client_id.0 && !(r.status is Transferred)
        },
    ensures
        step(m, action).0.transfers == m.transfers,
        step(m, action).0.clients == ensure_client(m.clients, action.client_id.0),
        step(m, action).1 == (if m.transfers.dom().contains(action.transfer_id.0) {
            Err::<(), Rejection>(Rejection::TransferConflict)
        } else {
            Err::<(), Rejection>(Rejection::TransferNotFound)
        }),
{
}

/// A settlement — resolve or chargeback — of a transfer that does not
/// exist, or that does not stand `Disputed`, is rejected and changes
/// nothing; only the addressed account is materialized.
///
/// A locked account is rejected with `ClientLocked` instead, and a
/// settlement by a client other than the transfer's owner with
/// `ClientMismatch`; both are left out here.
pub proof fn lemma_settle_wrong_status_rejected(m: StoreModel, action: Action)
    requires
        action.kind is Settle,
        !account_of(ensure_client(m.clients, action.client_id.0), action.client_id.0).locked,
        m.transfers.dom().contains(action.transfer_id.0) ==> {
            let r = m.transfers[action.transfer_id.0];
            r.owner.0 == action.client_id.0 && !(r.status is Disputed)
        },
    ensures
        step(m, action).0.transfers == m.transfers,
        step(m, action).0.clients == ensure_client(m.clients, action.client_id.0),
        step(m, action).1 == (if m.transfers.dom().contains(action.transfer_id.0) {
            Err::<(), Rejection>(Rejection::TransferConflict)
        } else {
            Err::<(), Rejection>(Rejection::TransferNotFound)
        }),
{
}

/// A withdrawal that would drive the available funds negative is rejected
/// with `InsufficientFunds`, and the whole store — the account included —
/// is identical before and after.
pub proof fn lemma_overdraft_rejected(m: StoreModel, action: Action, t: Transfer)
    requires
        action.kind == ActionKind::Transfer(t),
        has_client(m.clients, action.client_id.0),
        !account_of(m.clients, action.client_id.0).locked,
        t.value < 0,
        ({
            let acct = account_of(m.clients, action.client_id.0);
            acct.total - acct.held + t.value < 0
        }),
    ensures
        step(m, action).1 == Err::<(), Rejection>(Rejection::InsufficientFunds),
        step(m, action).0 == m,
{
}

/// Replaying a deposit or withdrawal that committed is rejected the second
/// time and is a no-op: the store is identical after the replay. A replayed
/// deposit always conflicts on the existing id; a replayed withdrawal may
/// instead be rejected for insufficient funds, since the first one lowered
/// the balance.
pub proof fn lemma_transfer_twice(m: StoreModel, action: Action, t: Transfer)
    requires
        inv(m),
        action.kind == ActionKind::Transfer(t),
        step(m, action).1 == Ok::<(), Rejection>(()),
    ensures
        step(step(m, action).0, action).0 == step(m, action).0,
        step(step(m, action).0, action).1 is Err,
        t.value >= 0 ==> step(step(m, action).0, action).1 == Err::<(), Rejection>(
            Rejection::TransferConflict,
        ),
{
    let c = action.client_id.0;
    let x = action.transfer_id.0;
    let m1c = ensure_client(m.clients, c);
    if !has_client(m.clients, c) {
        assert(m1c[m.clients.len() as int].0 == c);
    }
    let i1 = client_index(m1c, c);
    assert(0 <= i1 < m1c.len() && m1c[i1].0 == c);
    let acct = account_of(m1c, c);
    assert(!acct.locked);
    assert(!m.transfers.dom().contains(x));
    let post = step(m, action).0;
    lemma_step_preserves_inv(m, action);
    lemma_client_present_after(m, action);
    let a2 = AccountModel { total: acct.total + t.value, ..acct };
    assert(post.clients == set_account(m1c, c, a2));
    assert(post.clients[i1] == (c, a2));
    crate::store::client::lemma_account_at(post.clients, c, i1);
    assert(!a2.locked);
    assert(post.transfers.dom().contains(x));
}

/// Disputing the same transfer twice: the second dispute finds the record
/// already `Disputed`, is rejected as a conflict, and is a no-op — the
/// funds are not held twice.
pub proof fn lemma_dispute_twice(m: StoreModel, action: Action)
    requires
        inv(m),
        action.kind is Dispute,
        step(m, action).1 == Ok::<(), Rejection>(()),
    ensures
        step(step(m, action).0, action).0 == step(m, action).0,
        step(step(m, action).0, action).1 == Err::<(), Rejection>(Rejection::TransferConflict),
{
    let c = action.client_id.0;
    let x = action.transfer_id.0;
    let m1c = ensure_client(m.clients, c);
    if !has_client(m.clients, c) {
        assert(m1c[m.clients.len() as int].0 == c);
    }
    let i1 = client_index(m1c, c);
    assert(0 <= i1 < m1c.len() && m1c[i1].0 == c);
    let acct = account_of(m1c, c);
    assert(!acct.locked);
    assert(m.transfers.dom().contains(x));
    let r = m.transfers[x];
    assert(r.owner.0 == c && r.status is Transferred);
    let post = step(m, action).0;
    lemma_step_preserves_inv(m, action);
    lemma_client_present_after(m, action);
    let a2 = AccountModel { held: acct.held + r.value, ..acct };
    assert(post.clients == set_account(m1c, c, a2));
    assert(post.clients[i1] == (c, a2));
    crate::store::client::lemma_account_at(post.clients, c, i1);
    assert(!a2.locked);
    assert(post.transfers[x].status is Disputed);
}

/// Resolving the same dispute twice: the second resolve finds the record
/// back at `Transferred`, is rejected as a conflict, and is a no-op — the
/// funds are not released twice.
pub proof fn lemma_resolve_twice(m: StoreModel, action: Action)
    requires
        inv(m),
        action.kind == ActionKind::Settle(
            crate::types::Settle { action: crate::types::SettleAction::Resolve },
        ),
        step(m, action).1 == Ok::<(), Rejection>(()),
    ensures
        step(step(m, action).0, action).0 == step(m, action).0,
        step(step(m, action).0, action).1 == Err::<(), Rejection>(Rejection::TransferConflict),
{
    let c = action.client_id.0;
    let x = action.transfer_id.0;
    let m1c = ensure_client(m.clients, c);
    if !has_client(m.clients, c) {
        assert(m1c[m.clients.len() as int].0 == c);
    }
    let i1 = client_index(m1c, c);
    assert(0 <= i1 < m1c.len() && m1c[i1].0 == c);
    let acct = account_of(m1c, c);
    assert(!acct.locked);
    assert(m.transfers.dom().contains(x));
    let r = m.transfers[x];
    assert(r.owner.0 == c && r.status is Disputed);
    let post = step(m, action).0;
    lemma_step_preserves_inv(m, action);
    lemma_client_present_after(m, action);
    let a2 = AccountModel { held: acct.held - r.value, ..acct };
    assert(post.clients == set_account(m1c, c, a2));
    assert(post.clients[i1] == (c, a2));
    crate::store::client::lemma_account_at(post.clients, c, i1);
    assert(!a2.locked);
    assert(post.transfers[x].status is Transferred);
}

/// Charging back the same dispute twice: the chargeback locked the account,
/// so the second attempt fails with `ClientLocked` and is a no-op — the
/// transfer is not reversed twice.
pub proof fn lemma_chargeback_twice(m: StoreModel, action: Action)
    requires
        inv(m),
        action.kind == ActionKind::Settle(
            crate::types::Settle { action: crate::types::SettleAction::Chargeback },
        ),
        step(m, action).1 == Ok::<(), Rejection>(()),
    ensures
        step(step(m, action).0, action).0 == step(m, action).0,
        step(step(m, action).0, action).1 == Err::<(), Rejection>(Rejection::ClientLocked),
{
    let c = action.client_id.0;
    let x = action.transfer_id.0;
    let m1c = ensure_client(m.clients, c);
    if !has_client(m.clients, c) {
        assert(m1c[m.clients.len() as int].0 == c);
    }
    let i1 = client_index(m1c, c);
    assert(0 <= i1 < m1c.len() && m1c[i1].0 == c);
    let acct = account_of(m1c, c);
    assert(!acct.locked);
    assert(m.transfers.dom().contains(x));
    let r = m.transfers[x];
    assert(r.owner.0 == c && r.status is Disputed);
    let post = step(m, action).0;
    lemma_step_preserves_inv(m, action);
    lemma_client_present_after(m, action);
    let a2 = AccountModel {
        total: acct.total - r.value,
        held: acct.held - r.value,
        locked: true,
    };
    assert(post.clients == set_account(m1c, c, a2));
    assert(post.clients[i1] == (c, a2));
    crate::store::client::lemma_account_at(post.clients, c, i1);
    assert(a2.locked);
}

/// Once an account is locked, every action addressed to it — deposits
/// included — fails with `ClientLocked`, and the whole store is identical
/// before and after.
pub proof fn lemma_locked_rejects_all(m: StoreModel, action: Action)
    requires
        has_client(m.clients, action.client_id.0),
        account_of(m.clients, action.client_id.0).locked,
    ensures
        step(m, action).1 == Err::<(), Rejection>(Rejection::ClientLocked),
        step(m, action).0 == m,
{
}

} // verus!
