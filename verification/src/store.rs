//! The ledger store: client accounts and transfer records, and the single
//! mutating entry point that replays actions against them.
//!
//! The behaviour of the store is stated once, as the spec function [`step`]
//! over the mathematical model [`StoreModel`]; the executable [`Store::apply`]
//! is proved to follow it exactly. The store keeps the invariant [`inv`]:
//! every account's total is the sum of the values of its non-chargebacked
//! transfers, and its held funds are the sum of the values of its transfers
//! under open dispute. That invariant is what makes every balance update
//! provably free of overflow in 128-bit arithmetic.

pub mod client;
pub mod error;
pub mod laws;
pub mod sums;
pub mod transfer;

use vstd::prelude::*;

use crate::store::client::{
    account_of, ensure_client, has_client, set_account, unique_keys, AccountModel,
};
use crate::store::sums::{
    lemma_map_sum_bounds, lemma_map_sum_insert, lemma_map_sum_linear, lemma_map_sum_update,
    map_sum,
};
use crate::types::{Action, ActionKind, ClientId, SettleAction};

verus! {

/// The mathematical model of the whole store: the account entries in
/// first-reference order, and the transfer records by raw transfer id.
pub ghost struct StoreModel {
    pub clients: Seq<(u16, AccountModel)>,
    pub transfers: Map<u32, transfer::State>,
}

/// How the model classifies a rejected action.
pub ghost enum Rejection {
    /// The addressed account is locked.
    ClientLocked,
    /// The withdrawal would drive the available funds negative.
    InsufficientFunds,
    /// The transfer id already exists, or its status does not permit the
    /// requested transition.
    TransferConflict,
    /// No transfer record has this id.
    TransferNotFound,
    /// The action names a client other than the transfer's owner.
    ClientMismatch,
}

/// The contribution of one transfer record to client `c`'s total funds:
/// its value while the record is not chargebacked.
pub open spec fn total_contrib(c: u16) -> spec_fn(transfer::State) -> int {
    |t: transfer::State|
        if t.owner.0 == c && !(t.status is Chargebacked) {
            t.value as int
        } else {
            0
        }
}

/// The contribution of one transfer record to client `c`'s held funds:
/// its value while the record is under open dispute.
pub open spec fn held_contrib(c: u16) -> spec_fn(transfer::State) -> int {
    |t: transfer::State|
        if t.owner.0 == c && t.status is Disputed {
            t.value as int
        } else {
            0
        }
}

/// The contribution of one transfer record to client `c`'s available funds:
/// its value while the record stands settled. Pointwise, this is the total
/// contribution minus the held contribution.
pub open spec fn avail_contrib(c: u16) -> spec_fn(transfer::State) -> int {
    |t: transfer::State|
        if t.owner.0 == c && t.status is Transferred {
            t.value as int
        } else {
            0
        }
}

/// The store invariant. Each account entry carries exactly the sums of its
/// client's transfer records, every record's owner has an account entry, and
/// client keys are unique.
pub open spec fn inv(m: StoreModel) -> bool {
    &&& m.transfers.dom().finite()
    &&& unique_keys(m.clients)
    &&& forall|i: int|
        0 <= i < m.clients.len() ==> {
            let e = #[trigger] m.clients[i];
            e.1.total == map_sum(m.transfers, total_contrib(e.0)) && e.1.held == map_sum(
                m.transfers,
                held_contrib(e.0),
            )
        }
    &&& forall|x: u32|
        m.transfers.dom().contains(x) ==> has_client(
            m.clients,
            (#[trigger] m.transfers[x]).owner.0,
        )
}

/// A fund movement for client `c` under the fresh transfer id `x`: reject a
/// withdrawal that overdraws the available funds, reject a duplicate id,
/// otherwise record the transfer and add its value to the total.
pub open spec fn step_transfer(m: StoreModel, c: u16, x: u32, value: i64) -> (StoreModel, Result<
    (),
    Rejection,
>) {
    let acct = account_of(m.clients, c);
    if value < 0 && acct.total - acct.held + value < 0 {
        (m, Err(Rejection::InsufficientFunds))
    } else if m.transfers.dom().contains(x) {
        (m, Err(Rejection::TransferConflict))
    } else {
        let record = transfer::State {
            value,
            owner: ClientId(c),
            status: transfer::Status::Transferred,
        };
        let updated = AccountModel { total: acct.total + value, ..acct };
        (
            StoreModel {
                clients: set_account(m.clients, c, updated),
                transfers: m.transfers.insert(x, record),
            },
            Ok(()),
        )
    }
}

/// A dispute of transfer `x` by client `c`: the record must exist, belong to
/// `c` and stand `Transferred`; it moves to `Disputed` and its value joins
/// the held funds.
pub open spec fn step_dispute(m: StoreModel, c: u16, x: u32) -> (StoreModel, Result<
    (),
    Rejection,
>) {
    if !m.transfers.dom().contains(x) {
        (m, Err(Rejection::TransferNotFound))
    } else {
        let r = m.transfers[x];
        if r.owner.0 != c {
            (m, Err(Rejection::ClientMismatch))
        } else if !(r.status is Transferred) {
            (m, Err(Rejection::TransferConflict))
        } else {
            let acct = account_of(m.clients, c);
            let updated = AccountModel { held: acct.held + r.value, ..acct };
            (
                StoreModel {
                    clients: set_account(m.clients, c, updated),
                    transfers: m.transfers.insert(
                        x,
                        transfer::State { status: transfer::Status::Disputed, ..r },
                    ),
                },
                Ok(()),
            )
        }
    }
}

/// A settlement of transfer `x` by client `c`: the record must exist, belong
/// to `c` and stand `Disputed`. Resolving releases the held funds and the
/// record returns to `Transferred`; a chargeback reverses the transfer,
/// locks the account, and the record moves to the terminal `Chargebacked`.
pub open spec fn step_settle(m: StoreModel, c: u16, x: u32, sa: SettleAction) -> (StoreModel, Result<
    (),
    Rejection,
>) {
    if !m.transfers.dom().contains(x) {
        (m, Err(Rejection::TransferNotFound))
    } else {
        let r = m.transfers[x];
        if r.owner.0 != c {
            (m, Err(Rejection::ClientMismatch))
        } else if !(r.status is Disputed) {
            (m, Err(Rejection::TransferConflict))
        } else {
            let acct = account_of(m.clients, c);
            match sa {
                SettleAction::Resolve => (
                    StoreModel {
                        clients: set_account(
                            m.clients,
                            c,
                            AccountModel { held: acct.held - r.value, ..acct },
                        ),
                        transfers: m.transfers.insert(
                            x,
                            transfer::State { status: transfer::Status::Transferred, ..r },
                        ),
                    },
                    Ok(()),
                ),
                SettleAction::Chargeback => (
                    StoreModel {
                        clients: set_account(
                            m.clients,
                            c,
                            AccountModel {
                                total: acct.total - r.value,
                                held: acct.held - r.value,
                                locked: true,
                            },
                        ),
                        transfers: m.transfers.insert(
                            x,
                            transfer::State { status: transfer::Status::Chargebacked, ..r },
                        ),
                    },
                    Ok(()),
                ),
            }
        }
    }
}

/// One action against the model. The addressed account is materialized
/// first — even an action that is then rejected leaves the account behind.
/// A locked account rejects every action; otherwise the action's kind
/// decides.
pub open spec fn step(m: StoreModel, action: Action) -> (StoreModel, Result<(), Rejection>) {
    let c = action.client_id.0;
    let x = action.transfer_id.0;
    let clients = ensure_client(m.clients, c);
    let m1 = StoreModel { clients, transfers: m.transfers };
    if account_of(clients, c).locked {
        (m1, Err(Rejection::ClientLocked))
    } else {
        match action.kind {
            ActionKind::Transfer(t) => step_transfer(m1, c, x, t.value),
            ActionKind::Dispute => step_dispute(m1, c, x),
            ActionKind::Settle(s) => step_settle(m1, c, x, s.action),
        }
    }
}

/// Materializing an account preserves the invariant: a client that had no
/// account owns no transfers, so the fresh zero balances are the right sums.
proof fn lemma_ensure_client_inv(m: StoreModel, c: u16)
    requires
        inv(m),
    ensures
        inv(StoreModel { clients: ensure_client(m.clients, c), ..m }),
        has_client(ensure_client(m.clients, c), c),
{
    let clients = ensure_client(m.clients, c);
    if has_client(m.clients, c) {
        assert(StoreModel { clients, ..m } == m);
    } else {
        assert(clients[m.clients.len() as int].0 == c);
        assert forall|x: u32| m.transfers.dom().contains(x) implies #[trigger] total_contrib(c)(
            m.transfers[x],
        ) == 0 && held_contrib(c)(m.transfers[x]) == 0 by {
            let w = m.transfers[x].owner.0;
            assert(has_client(m.clients, w));
            if w == c {
                assert(has_client(m.clients, c));
            }
        }
        assert forall|x: u32| m.transfers.dom().contains(x) implies 0
            <= #[trigger] total_contrib(c)(m.transfers[x]) <= 0 by {}
        lemma_map_sum_bounds(m.transfers, total_contrib(c), 0, 0);
        assert forall|x: u32| m.transfers.dom().contains(x) implies 0
            <= #[trigger] held_contrib(c)(m.transfers[x]) <= 0 by {}
        lemma_map_sum_bounds(m.transfers, held_contrib(c), 0, 0);
        assert(map_sum(m.transfers, total_contrib(c)) == 0);
        assert(map_sum(m.transfers, held_contrib(c)) == 0);
        assert forall|i: int| 0 <= i < clients.len() implies {
            let e = #[trigger] clients[i];
            e.1.total == map_sum(m.transfers, total_contrib(e.0)) && e.1.held == map_sum(
                m.transfers,
                held_contrib(e.0),
            )
        } by {
            if i < m.clients.len() {
                assert(clients[i] == m.clients[i]);
            } else {
                assert(clients[i] == (c, crate::store::client::fresh_account()));
            }
        }
        assert forall|x: u32| m.transfers.dom().contains(x) implies has_client(
            clients,
            (#[trigger] m.transfers[x]).owner.0,
        ) by {
            let w = m.transfers[x].owner.0;
            let i = crate::store::client::client_index(m.clients, w);
            assert(clients[i].0 == w);
        }
    }
}

/// Recording a fresh transfer preserves the invariant: the owner's total
/// grows by the value, every other sum is unchanged.
proof fn lemma_commit_transfer_inv(m: StoreModel, c: u16, x: u32, value: i64)
    requires
        inv(m),
        has_client(m.clients, c),
        !m.transfers.dom().contains(x),
    ensures
        ({
            let acct = account_of(m.clients, c);
            let record = transfer::State {
                value,
                owner: ClientId(c),
                status: transfer::Status::Transferred,
            };
            inv(
                StoreModel {
                    clients: set_account(
                        m.clients,
                        c,
                        AccountModel { total: acct.total + value, ..acct },
                    ),
                    transfers: m.transfers.insert(x, record),
                },
            )
        }),
{
    let acct = account_of(m.clients, c);
    let record = transfer::State {
        value,
        owner: ClientId(c),
        status: transfer::Status::Transferred,
    };
    let clients2 = set_account(m.clients, c, AccountModel { total: acct.total + value, ..acct });
    let t2 = m.transfers.insert(x, record);
    let ci = crate::store::client::client_index(m.clients, c);
    assert(0 <= ci < m.clients.len() && m.clients[ci].0 == c);
    assert(clients2.len() == m.clients.len());
    assert(unique_keys(clients2)) by {
        assert forall|a: int, b: int| 0 <= a < b < clients2.len() implies clients2[a].0
            != clients2[b].0 by {
            assert(clients2[a].0 == m.clients[a].0 && clients2[b].0 == m.clients[b].0);
        }
    }
    assert forall|i: int| 0 <= i < clients2.len() implies {
        let e = #[trigger] clients2[i];
        e.1.total == map_sum(t2, total_contrib(e.0)) && e.1.held == map_sum(
            t2,
            held_contrib(e.0),
        )
    } by {
        let w = clients2[i].0;
        lemma_map_sum_insert(m.transfers, total_contrib(w), x, record);
        lemma_map_sum_insert(m.transfers, held_contrib(w), x, record);
        if i == ci {
            assert(w == c);
            assert(total_contrib(c)(record) == value as int);
            assert(held_contrib(c)(record) == 0);
            assert(clients2[i].1 == AccountModel { total: acct.total + value, ..acct });
        } else {
            assert(clients2[i] == m.clients[i]);
            assert(w != c);
            assert(total_contrib(w)(record) == 0);
            assert(held_contrib(w)(record) == 0);
        }
    }
    assert forall|y: u32| t2.dom().contains(y) implies has_client(
        clients2,
        (#[trigger] t2[y]).owner.0,
    ) by {
        let w = t2[y].owner.0;
        if y == x {
            assert(clients2[ci].0 == c);
        } else {
            assert(t2[y] == m.transfers[y]);
            assert(has_client(m.clients, w));
            let j = crate::store::client::client_index(m.clients, w);
            assert(clients2[j].0 == w);
        }
    }
}

/// Replacing the record of a transfer owned by `c` preserves the invariant,
/// when the owner's balances are corrected by the change in the record's
/// contributions.
proof fn lemma_update_record_inv(m: StoreModel, c: u16, x: u32, r2: transfer::State, lk: bool)
    requires
        inv(m),
        has_client(m.clients, c),
        m.transfers.dom().contains(x),
        m.transfers[x].owner.0 == c,
        r2.owner.0 == c,
    ensures
        ({
            let acct = account_of(m.clients, c);
            let r1 = m.transfers[x];
            inv(
                StoreModel {
                    clients: set_account(
                        m.clients,
                        c,
                        AccountModel {
                            total: acct.total - total_contrib(c)(r1) + total_contrib(c)(r2),
                            held: acct.held - held_contrib(c)(r1) + held_contrib(c)(r2),
                            locked: lk,
                        },
                    ),
                    transfers: m.transfers.insert(x, r2),
                },
            )
        }),
{
    let acct = account_of(m.clients, c);
    let r1 = m.transfers[x];
    let a2 = AccountModel {
        total: acct.total - total_contrib(c)(r1) + total_contrib(c)(r2),
        held: acct.held - held_contrib(c)(r1) + held_contrib(c)(r2),
        locked: lk,
    };
    let clients2 = set_account(m.clients, c, a2);
    let t2 = m.transfers.insert(x, r2);
    let ci = crate::store::client::client_index(m.clients, c);
    assert(0 <= ci < m.clients.len() && m.clients[ci].0 == c);
    assert(unique_keys(clients2)) by {
        assert forall|a: int, b: int| 0 <= a < b < clients2.len() implies clients2[a].0
            != clients2[b].0 by {
            assert(clients2[a].0 == m.clients[a].0 && clients2[b].0 == m.clients[b].0);
        }
    }
    assert forall|i: int| 0 <= i < clients2.len() implies {
        let e = #[trigger] clients2[i];
        e.1.total == map_sum(t2, total_contrib(e.0)) && e.1.held == map_sum(
            t2,
            held_contrib(e.0),
        )
    } by {
        let w = clients2[i].0;
        lemma_map_sum_update(m.transfers, total_contrib(w), x, r2);
        lemma_map_sum_update(m.transfers, held_contrib(w), x, r2);
        if i == ci {
            assert(w == c);
            assert(clients2[i].1 == a2);
        } else {
            assert(clients2[i] == m.clients[i]);
            assert(w != c);
            assert(total_contrib(w)(r1) == 0 && total_contrib(w)(r2) == 0);
            assert(held_contrib(w)(r1) == 0 && held_contrib(w)(r2) == 0);
        }
    }
    assert forall|y: u32| t2.dom().contains(y) implies has_client(
        clients2,
        (#[trigger] t2[y]).owner.0,
    ) by {
        let w = t2[y].owner.0;
        if y == x {
            assert(clients2[ci].0 == c);
        } else {
            assert(t2[y] == m.transfers[y]);
            assert(has_client(m.clients, w));
            let j = crate::store::client::client_index(m.clients, w);
            assert(clients2[j].0 == w);
        }
    }
}

/// The contribution functions of any client stay within the signed 64-bit
/// range, record by record.
proof fn lemma_contribs_bounded(t: Map<u32, transfer::State>, c: u16)
    ensures
        forall|x: u32|
            t.dom().contains(x) ==> -0x8000_0000_0000_0000 <= #[trigger] (total_contrib(c))(
                t[x],
            ) <= 0x7fff_ffff_ffff_ffff,
        forall|x: u32|
            t.dom().contains(x) ==> -0x8000_0000_0000_0000 <= #[trigger] (held_contrib(c))(t[x])
                <= 0x7fff_ffff_ffff_ffff,
        forall|x: u32|
            t.dom().contains(x) ==> -0x8000_0000_0000_0000 <= #[trigger] (avail_contrib(c))(
                t[x],
            ) <= 0x7fff_ffff_ffff_ffff,
{
}

/// A balance sum over at most `u64::MAX` records fits in an `i128`, with
/// room to add or subtract one more 64-bit value on either side.
proof fn lemma_sum_fits(t: Map<u32, transfer::State>, f: spec_fn(transfer::State) -> int)
    requires
        t.dom().finite(),
        t.dom().len() <= 0xffff_ffff_ffff_ffff,
        forall|x: u32|
            t.dom().contains(x) ==> -0x8000_0000_0000_0000 <= #[trigger] f(t[x])
                <= 0x7fff_ffff_ffff_ffff,
    ensures
        i128::MIN + 0x8000_0000_0000_0000 <= map_sum(t, f) <= i128::MAX - 0x8000_0000_0000_0000,
{
    lemma_map_sum_bounds(t, f, -0x8000_0000_0000_0000, 0x7fff_ffff_ffff_ffff);
    let n: int = t.dom().len() as int;
    assert((-0x8000_0000_0000_0000_0000_0000_0000_0000 + 0x8000_0000_0000_0000) <= n * (
    -0x8000_0000_0000_0000) && n * 0x7fff_ffff_ffff_ffff <= (
    0x7fff_ffff_ffff_ffff_ffff_ffff_ffff_ffff - 0x8000_0000_0000_0000)) by (nonlinear_arith)
        requires
            0 <= n <= 0xffff_ffff_ffff_ffff,
    ;
}

/// For a well-formed store, a client's available funds — total minus held —
/// are the sum of the values of its settled transfers.
pub proof fn lemma_avail_sum(m: StoreModel, c: u16)
    requires
        inv(m),
        has_client(m.clients, c),
    ensures
        account_of(m.clients, c).total - account_of(m.clients, c).held == map_sum(
            m.transfers,
            avail_contrib(c),
        ),
{
    let f = total_contrib(c);
    let g = held_contrib(c);
    let h = avail_contrib(c);
    assert(forall|v: transfer::State| #[trigger] h(v) == f(v) - g(v));
    lemma_map_sum_linear(m.transfers, f, g, h);
    let i = crate::store::client::client_index(m.clients, c);
    assert(0 <= i < m.clients.len() && m.clients[i].0 == c);
    assert(m.clients[i].1 == account_of(m.clients, c));
}

/// Replaying one action preserves the store invariant, whatever the action
/// and whether it commits or is rejected.
pub proof fn lemma_step_preserves_inv(m: StoreModel, action: Action)
    requires
        inv(m),
    ensures
        inv(step(m, action).0),
{
    let c = action.client_id.0;
    let x = action.transfer_id.0;
    lemma_ensure_client_inv(m, c);
    let m1 = StoreModel { clients: ensure_client(m.clients, c), ..m };
    assert(inv(m1));
    if !account_of(m1.clients, c).locked {
        match action.kind {
            ActionKind::Transfer(t) => {
                let acct = account_of(m1.clients, c);
                if t.value < 0 && acct.total - acct.held + t.value < 0 {
                } else if m1.transfers.dom().contains(x) {
                } else {
                    lemma_commit_transfer_inv(m1, c, x, t.value);
                }
            },
            ActionKind::Dispute => {
                if m1.transfers.dom().contains(x) {
                    let r = m1.transfers[x];
                    if r.owner.0 == c && r.status is Transferred {
                        let r2 = transfer::State { status: transfer::Status::Disputed, ..r };
                        lemma_update_record_inv(m1, c, x, r2, account_of(m1.clients, c).locked);
                        let acct = account_of(m1.clients, c);
                        assert(AccountModel {
                            total: acct.total - total_contrib(c)(r) + total_contrib(c)(r2),
                            held: acct.held - held_contrib(c)(r) + held_contrib(c)(r2),
                            locked: acct.locked,
                        } == AccountModel { held: acct.held + r.value, ..acct });
                    }
                }
            },
            ActionKind::Settle(s) => {
                if m1.transfers.dom().contains(x) {
                    let r = m1.transfers[x];
                    if r.owner.0 == c && r.status is Disputed {
                        let acct = account_of(m1.clients, c);
                        match s.action {
                            SettleAction::Resolve => {
                                let r2 = transfer::State {
                                    status: transfer::Status::Transferred,
                                    ..r
                                };
                                lemma_update_record_inv(m1, c, x, r2, acct.locked);
                                assert(AccountModel {
                                    total: acct.total - total_contrib(c)(r) + total_contrib(c)(
                                        r2,
                                    ),
                                    held: acct.held - held_contrib(c)(r) + held_contrib(c)(r2),
                                    locked: acct.locked,
                                } == AccountModel { held: acct.held - r.value, ..acct });
                            },
                            SettleAction::Chargeback => {
                                let r2 = transfer::State {
                                    status: transfer::Status::Chargebacked,
                                    ..r
                                };
                                lemma_update_record_inv(m1, c, x, r2, true);
                                assert(AccountModel {
                                    total: acct.total - total_contrib(c)(r) + total_contrib(c)(
                                        r2,
                                    ),
                                    held: acct.held - held_contrib(c)(r) + held_contrib(c)(r2),
                                    locked: true,
                                } == AccountModel {
                                    total: acct.total - r.value,
                                    held: acct.held - r.value,
                                    locked: true,
                                });
                            },
                        }
                    }
                }
            },
        }
    }
}

/// The ledger store: the client accounts and the transfer records, owned
/// together so that the balance invariant ties them to each other.
pub struct Store {
    client: client::Store,
    transfer: transfer::Store,
}

impl View for Store {
    type V = StoreModel;

    closed spec fn view(&self) -> StoreModel {
        StoreModel { clients: self.client@, transfers: self.transfer@ }
    }
}

impl Store {
    #[verifier::type_invariant]
    spec fn wf(self) -> bool {
        inv(self@)
    }
}

impl Default for Store {
    fn default() -> (s: Self)
        ensures
            s@.clients == Seq::<(u16, AccountModel)>::empty(),
            s@.transfers == Map::<u32, transfer::State>::empty(),
    {
        let s = Store { client: client::Store::default(), transfer: transfer::Store::new() };
        s
    }
}

impl Store {
    /// Give up the store and hand back the client side, for rendering the
    /// final report.
    pub fn into_client_store(self) -> (r: client::Store)
        ensures
            r@ == self@.clients,
    {
        self.client
    }

    /// Replay one action against the ledgers. On success the committed
    /// change is exactly what [`step`] states; on rejection the typed error
    /// says why, and nothing has changed apart from the materialization of
    /// the addressed account.
    pub fn apply(&mut self, action: Action) -> (r: Result<(), error::Error>)
        ensures
            final(self)@ == step(old(self)@, action).0,
            ({
                let outcome = step(old(self)@, action).1;
                match outcome {
                    Ok(()) => r is Ok,
                    Err(Rejection::ClientLocked) => r == Err::<(), error::Error>(
                        error::Error::Client(
                            client::Error::ClientLocked { client_id: action.client_id },
                        ),
                    ),
                    Err(Rejection::InsufficientFunds) => (r matches Err(
                        error::Error::InsufficientFunds { client_id, .. },
                    ) && client_id == action.client_id),
                    Err(Rejection::TransferConflict) => (r matches Err(
                        error::Error::TransferConflict { transfer_id, .. },
                    ) && transfer_id == action.transfer_id),
                    Err(Rejection::TransferNotFound) => r == Err::<(), error::Error>(
                        error::Error::TransferNotFound { transfer_id: action.transfer_id },
                    ),
                    Err(Rejection::ClientMismatch) => r == Err::<(), error::Error>(
                        error::Error::ClientMismatch {
                            transfer_id: action.transfer_id,
                            client_id: action.client_id,
                        },
                    ),
                }
            }),
    {
        proof {
            use_type_invariant(&*self);
        }
        let ghost pre = self@;
        let mut tmp = Store::default();
        core::mem::swap(self, &mut tmp);
        let Store { client: mut accounts, transfer: mut transfers } = tmp;
        let ghost c = action.client_id.0;
        let ghost x = action.transfer_id.0;

        let gate = accounts.get_or_default_mut(action.client_id);
        proof {
            lemma_ensure_client_inv(pre, c);
        }
        let ghost m1 = StoreModel { clients: accounts@, transfers: transfers@ };
        let r: Result<(), error::Error> = match gate {
            Err(e) => Err(error::Error::Client(e)),
            Ok(acct) => {
                match action.kind {
                    ActionKind::Transfer(t) => {
                        let _n: usize = transfers.len();
                        proof {
                            lemma_contribs_bounded(m1.transfers, c);
                            lemma_avail_sum(m1, c);
                            lemma_sum_fits(m1.transfers, avail_contrib(c));
                        }
                        let available: i128 = acct.total - acct.held;
                        if t.value < 0 && available + (t.value as i128) < 0 {
                            Err(
                                error::Error::InsufficientFunds {
                                    client_id: action.client_id,
                                    kind: "withdrawal would result in negative available funds",
                                },
                            )
                        } else if transfers.contains_key(&action.transfer_id.0) {
                            Err(
                                error::Error::TransferConflict {
                                    transfer_id: action.transfer_id,
                                    kind: "transfer exists",
                                    description: "a transfer already exists with this id",
                                },
                            )
                        } else {
                            let record = transfer::State {
                                value: t.value,
                                owner: action.client_id,
                                status: transfer::Status::Transferred,
                            };
                            transfers.insert(action.transfer_id.0, record);
                            let _n2: usize = transfers.len();
                            proof {
                                lemma_map_sum_insert(m1.transfers, total_contrib(c), x, record);
                                lemma_contribs_bounded(transfers@, c);
                                lemma_sum_fits(transfers@, total_contrib(c));
                            }
                            let new_total: i128 = acct.total + (t.value as i128);
                            accounts.put(
                                action.client_id,
                                client::State {
                                    total: new_total,
                                    held: acct.held,
                                    access: acct.access,
                                },
                            );
                            Ok(())
                        }
                    },
                    ActionKind::Dispute => {
                        match transfers.get(&action.transfer_id.0) {
                            None => Err(
                                error::Error::TransferNotFound {
                                    transfer_id: action.transfer_id,
                                },
                            ),
                            Some(found) => {
                                let rec = *found;
                                if rec.owner.0 != action.client_id.0 {
                                    Err(
                                        error::Error::ClientMismatch {
                                            transfer_id: action.transfer_id,
                                            client_id: action.client_id,
                                        },
                                    )
                                } else if rec.status != transfer::Status::Transferred {
                                    Err(
                                        error::Error::TransferConflict {
                                            transfer_id: action.transfer_id,
                                            kind: "disputed non-transferred transfer",
                                            description: "transfer should be transferred",
                                        },
                                    )
                                } else {
                                    let r2 = transfer::State {
                                        status: transfer::Status::Disputed,
                                        ..rec
                                    };
                                    transfers.insert(action.transfer_id.0, r2);
                                    let _n2: usize = transfers.len();
                                    proof {
                                        lemma_map_sum_update(
                                            m1.transfers,
                                            held_contrib(c),
                                            x,
                                            r2,
                                        );
                                        lemma_contribs_bounded(transfers@, c);
                                        lemma_sum_fits(transfers@, held_contrib(c));
                                    }
                                    let new_held: i128 = acct.held + (rec.value as i128);
                                    accounts.put(
                                        action.client_id,
                                        client::State {
                                            total: acct.total,
                                            held: new_held,
                                            access: acct.access,
                                        },
                                    );
                                    Ok(())
                                }
                            },
                        }
                    },
                    ActionKind::Settle(s) => {
                        match transfers.get(&action.transfer_id.0) {
                            None => Err(
                                error::Error::TransferNotFound {
                                    transfer_id: action.transfer_id,
                                },
                            ),
                            Some(found) => {
                                let rec = *found;
                                if rec.owner.0 != action.client_id.0 {
                                    Err(
                                        error::Error::ClientMismatch {
                                            transfer_id: action.transfer_id,
                                            client_id: action.client_id,
                                        },
                                    )
                                } else if rec.status != transfer::Status::Disputed {
                                    Err(
                                        error::Error::TransferConflict {
                                            transfer_id: action.transfer_id,
                                            kind: "settled non-disputed transfer",
                                            description: "transfer should be disputed",
                                        },
                                    )
                                } else {
                                    match s.action {
                                        SettleAction::Resolve => {
                                            let r2 = transfer::State {
                                                status: transfer::Status::Transferred,
                                                ..rec
                                            };
                                            transfers.insert(action.transfer_id.0, r2);
                                            let _n2: usize = transfers.len();
                                            proof {
                                                lemma_map_sum_update(
                                                    m1.transfers,
                                                    held_contrib(c),
                                                    x,
                                                    r2,
                                                );
                                                lemma_contribs_bounded(transfers@, c);
                                                lemma_sum_fits(transfers@, held_contrib(c));
                                            }
                                            let new_held: i128 = acct.held - (rec.value as i128);
                                            accounts.put(
                                                action.client_id,
                                                client::State {
                                                    total: acct.total,
                                                    held: new_held,
                                                    access: acct.access,
                                                },
                                            );
                                            Ok(())
                                        },
                                        SettleAction::Chargeback => {
                                            let r2 = transfer::State {
                                                status: transfer::Status::Chargebacked,
                                                ..rec
                                            };
                                            transfers.insert(action.transfer_id.0, r2);
                                            let _n2: usize = transfers.len();
                                            proof {
                                                lemma_map_sum_update(
                                                    m1.transfers,
                                                    held_contrib(c),
                                                    x,
                                                    r2,
                                                );
                                                lemma_map_sum_update(
                                                    m1.transfers,
                                                    total_contrib(c),
                                                    x,
                                                    r2,
                                                );
                                                lemma_contribs_bounded(transfers@, c);
                                                lemma_sum_fits(transfers@, held_contrib(c));
                                                lemma_sum_fits(transfers@, total_contrib(c));
                                            }
                                            let new_held: i128 = acct.held - (rec.value as i128);
                                            let new_total: i128 = acct.total - (rec.value
                                                as i128);
                                            accounts.put(
                                                action.client_id,
                                                client::State {
                                                    total: new_total,
                                                    held: new_held,
                                                    access: client::Access::Locked,
                                                },
                                            );
                                            Ok(())
                                        },
                                    }
                                }
                            },
                        }
                    },
                }
            },
        };
        proof {
            lemma_step_preserves_inv(pre, action);
            assert(StoreModel { clients: accounts@, transfers: transfers@ } == step(
                pre,
                action,
            ).0);
        }
        *self = Store { client: accounts, transfer: transfers };
        r
    }
}

} // verus!
