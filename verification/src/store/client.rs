//! The per-client side of the ledger: account states keyed by client id, in
//! the order the clients were first referenced.
//!
//! The backing container is `indexmap::IndexMap`, which keeps insertion
//! order; the final report enumerates accounts in exactly that order. The
//! map is reached only through the trusted wrappers in this module, whose
//! contracts state what the crate's documentation promises about order and
//! key uniqueness; everything else here is verified against them.

use vstd::prelude::*;

use crate::types::ClientId;
use indexmap::IndexMap;
use std::collections::hash_map::RandomState;

verus! {

/// An account entry as the backing map stores it: total, held, locked.
pub type RawAccount = (i128, i128, bool);

/// The mathematical model of one account: unbounded balances and the lock
/// flag. `available` is the derived quantity `total - held`.
pub ghost struct AccountModel {
    pub total: int,
    pub held: int,
    pub locked: bool,
}

/// The model of a raw account entry.
pub open spec fn raw_model(v: RawAccount) -> AccountModel {
    AccountModel { total: v.0 as int, held: v.1 as int, locked: v.2 }
}

/// The model of a whole raw entry sequence.
pub open spec fn entries_view(raw: Seq<(u16, RawAccount)>) -> Seq<(u16, AccountModel)> {
    raw.map_values(|e: (u16, RawAccount)| (e.0, raw_model(e.1)))
}

/// No two entries share a key.
pub open spec fn unique_keys<T>(s: Seq<(u16, T)>) -> bool {
    forall|i: int, j: int| 0 <= i < j < s.len() ==> s[i].0 != s[j].0
}

/// Some entry has key `c`.
pub open spec fn has_client<T>(s: Seq<(u16, T)>, c: u16) -> bool {
    exists|i: int| 0 <= i < s.len() && s[i].0 == c
}

/// The index of the entry with key `c` (meaningful when keys are unique and
/// `c` is present).
pub open spec fn client_index<T>(s: Seq<(u16, T)>, c: u16) -> int {
    choose|i: int| 0 <= i < s.len() && s[i].0 == c
}

/// The value stored under key `c`.
pub open spec fn account_of<T>(s: Seq<(u16, T)>, c: u16) -> T {
    s[client_index(s, c)].1
}

/// The sequence with the value under key `c` replaced by `a`.
pub open spec fn set_account<T>(s: Seq<(u16, T)>, c: u16, a: T) -> Seq<(u16, T)> {
    s.update(client_index(s, c), (c, a))
}

/// With unique keys, the entry that holds key `c` is the one `client_index`
/// picks.
pub proof fn lemma_account_at<T>(s: Seq<(u16, T)>, c: u16, i: int)
    requires
        unique_keys(s),
        0 <= i < s.len(),
        s[i].0 == c,
    ensures
        client_index(s, c) == i,
        has_client(s, c),
        account_of(s, c) == s[i].1,
{
    assert(has_client(s, c));
    let j = client_index(s, c);
    assert(0 <= j < s.len() && s[j].0 == c);
    if j < i {
        assert(s[j].0 != s[i].0);
    } else if i < j {
        assert(s[i].0 != s[j].0);
    }
}

/// A freshly materialized account: zero balances, not locked.
pub open spec fn fresh_account() -> AccountModel {
    AccountModel { total: 0, held: 0, locked: false }
}

/// The sequence after referencing client `c`: unchanged if present, with a
/// fresh account appended otherwise.
pub open spec fn ensure_client(s: Seq<(u16, AccountModel)>, c: u16) -> Seq<(u16, AccountModel)> {
    if has_client(s, c) {
        s
    } else {
        s.push((c, fresh_account()))
    }
}

/// The sequence after storing `a` under `c`: replaced in place if present,
/// appended last otherwise.
pub open spec fn put_account(s: Seq<(u16, AccountModel)>, c: u16, a: AccountModel) -> Seq<
    (u16, AccountModel),
> {
    if has_client(s, c) {
        set_account(s, c, a)
    } else {
        s.push((c, a))
    }
}

/// Whether an account may still be mutated.
#[derive(Debug, Clone, Copy, PartialEq, Eq, Structural)]
pub enum Access {
    Active,
    Locked,
}

impl Default for Access {
    fn default() -> (r: Self)
        ensures
            r == Access::Active,
    {
        Access::Active
    }
}

/// The error with which the client store rejects an action on a locked
/// account.
#[derive(Debug, PartialEq, Eq)]
pub enum Error {
    ClientLocked { client_id: ClientId },
}

/// One client account: the total funds, the funds held by open disputes, and
/// whether the account is locked. Balances are in minor units; the available
/// funds are `total - held`.
#[derive(Debug, Clone, Copy)]
pub struct State {
    pub total: i128,
    pub held: i128,
    pub access: Access,
}

impl View for State {
    type V = AccountModel;

    open spec fn view(&self) -> AccountModel {
        AccountModel {
            total: self.total as int,
            held: self.held as int,
            locked: self.access is Locked,
        }
    }
}

impl Default for State {
    fn default() -> (r: Self)
        ensures
            r@ == fresh_account(),
    {
        State { total: 0, held: 0, access: Access::Active }
    }
}

impl State {
    /// The funds the client may withdraw: `total - held`.
    pub fn available(&self) -> (r: i128)
        requires
            i128::MIN <= self@.total - self@.held <= i128::MAX,
        ensures
            r == self@.total - self@.held,
    {
        self.total - self.held
    }

    /// Whether the account rejects all further mutating actions.
    pub fn is_locked(&self) -> (r: bool)
        ensures
            r == self@.locked,
    {
        self.access == Access::Locked
    }
}

// Trusted declaration of the backing container type. Relies on
// indexmap::IndexMap, an insertion-ordered hash map.
#[verifier::external_type_specification]
#[verifier::external_body]
#[verifier::reject_recursive_types(K)]
#[verifier::reject_recursive_types(V)]
#[verifier::reject_recursive_types(S)]
pub struct ExIndexMap<K, V, S>(IndexMap<K, V, S>);

// The contents of the backing map: its key-value pairs in their order in the
// map, which IndexMap documents to be insertion order.
pub uninterp spec fn account_entries(m: IndexMap<u16, RawAccount, RandomState>) -> Seq<
    (u16, RawAccount),
>;

/// Relies on indexmap::IndexMap::new: the new map is empty.
#[verifier::external_body]
fn imap_new() -> (m: IndexMap<u16, RawAccount, RandomState>)
    ensures
        account_entries(m) == Seq::<(u16, RawAccount)>::empty(),
{
    IndexMap::new()
}

/// Relies on indexmap::IndexMap::get: the value paired with an equivalent
/// key, or nothing when no entry has that key.
#[verifier::external_body]
fn imap_get(m: &IndexMap<u16, RawAccount, RandomState>, key: u16) -> (r: Option<RawAccount>)
    ensures
        match r {
            Some(v) => exists|i: int|
                0 <= i < account_entries(*m).len() && account_entries(*m)[i] == (key, v),
            None => forall|i: int|
                0 <= i < account_entries(*m).len() ==> (#[trigger] account_entries(*m)[i]).0
                    != key,
        },
{
    m.get(&key).copied()
}

/// Relies on indexmap::IndexMap::insert: an existing key keeps its place in
/// the order and its value is replaced; a new key is appended last in order.
#[verifier::external_body]
fn imap_insert(m: &mut IndexMap<u16, RawAccount, RandomState>, key: u16, value: RawAccount)
    ensures
        account_entries(*final(m)) == ({
            let pre = account_entries(*old(m));
            if exists|i: int| 0 <= i < pre.len() && (#[trigger] pre[i]).0 == key {
                pre.update(
                    choose|i: int| 0 <= i < pre.len() && (#[trigger] pre[i]).0 == key,
                    (key, value),
                )
            } else {
                pre.push((key, value))
            }
        }),
{
    m.insert(key, value);
}

/// Relies on indexmap::IndexMap::iter: the key-value pairs in their order in
/// the map.
#[verifier::external_body]
fn imap_entries_vec(m: &IndexMap<u16, RawAccount, RandomState>) -> (r: Vec<(u16, RawAccount)>)
    ensures
        r@ == account_entries(*m),
{
    m.iter().map(|(k, v)| (*k, *v)).collect()
}

/// The client store: account states keyed by client id, in first-reference
/// order.
pub struct Store {
    inner: IndexMap<u16, RawAccount, RandomState>,
}

impl View for Store {
    type V = Seq<(u16, AccountModel)>;

    closed spec fn view(&self) -> Seq<(u16, AccountModel)> {
        entries_view(account_entries(self.inner))
    }
}

impl Store {
    #[verifier::type_invariant]
    spec fn wf(self) -> bool {
        unique_keys(account_entries(self.inner))
    }
}

impl Default for Store {
    fn default() -> (s: Self)
        ensures
            s@ == Seq::<(u16, AccountModel)>::empty(),
    {
        let inner = imap_new();
        let s = Store { inner };
        proof {
            assert(s@ =~= Seq::<(u16, AccountModel)>::empty());
        }
        s
    }
}

impl Store {
    /// Store `state` under `client_id`: replace the account in place when the
    /// client exists, append it last otherwise.
    pub(crate) fn put(&mut self, client_id: ClientId, state: State)
        ensures
            final(self)@ == put_account(old(self)@, client_id.0, state@),
            unique_keys(final(self)@),
    {
        proof {
            use_type_invariant(&*self);
        }
        let ghost pre_raw = account_entries(self.inner);
        let ghost pre_view = self@;
        let raw: RawAccount = (state.total, state.held, state.is_locked());
        let mut inner = imap_new();
        core::mem::swap(&mut self.inner, &mut inner);
        imap_insert(&mut inner, client_id.0, raw);
        proof {
            lemma_put_preserves(pre_raw, account_entries(inner), client_id.0, raw);
        }
        core::mem::swap(&mut self.inner, &mut inner);
        proof {
            assert(state@ == raw_model(raw));
            assert(self@ == put_account(pre_view, client_id.0, state@));
        }
    }

    /// Resolve the account for `client_id`, materializing a fresh one if the
    /// client was never referenced before; reject with `ClientLocked` when
    /// the account is locked. The account is materialized even then.
    pub fn get_or_default_mut(&mut self, client_id: ClientId) -> (r: Result<State, Error>)
        ensures
            final(self)@ == ensure_client(old(self)@, client_id.0),
            unique_keys(final(self)@),
            match r {
                Ok(acct) => acct@ == account_of(final(self)@, client_id.0) && !acct@.locked,
                Err(e) => e == (Error::ClientLocked { client_id }) && account_of(
                    final(self)@,
                    client_id.0,
                ).locked,
            },
    {
        proof {
            use_type_invariant(&*self);
        }
        let ghost pre_view = self@;
        let existing = imap_get(&self.inner, client_id.0);
        match existing {
            Some(raw) => {
                let acct = State {
                    total: raw.0,
                    held: raw.1,
                    access: if raw.2 {
                        Access::Locked
                    } else {
                        Access::Active
                    },
                };
                proof {
                    let entries = account_entries(self.inner);
                    let i = choose|i: int|
                        0 <= i < entries.len() && entries[i] == (client_id.0, raw);
                    assert(self@[i].0 == client_id.0 && self@[i].1 == raw_model(raw));
                    assert(has_client(self@, client_id.0));
                    let j = client_index(self@, client_id.0);
                    assert(0 <= j < self@.len() && self@[j].0 == client_id.0);
                    assert(j == i);
                    assert(account_of(self@, client_id.0) == raw_model(raw));
                    assert(ensure_client(pre_view, client_id.0) == pre_view);
                }
                if acct.is_locked() {
                    Err(Error::ClientLocked { client_id })
                } else {
                    Ok(acct)
                }
            },
            None => {
                proof {
                    assert(!has_client(self@, client_id.0)) by {
                        let entries = account_entries(self.inner);
                        assert forall|i: int| 0 <= i < self@.len() implies (#[trigger] self@[i]).0
                            != client_id.0 by {
                            assert(self@[i].0 == entries[i].0);
                        }
                    }
                }
                let fresh = State::default();
                self.put(client_id, fresh);
                proof {
                    let post = self@;
                    assert(post == pre_view.push((client_id.0, fresh_account())));
                    assert(post[post.len() - 1].0 == client_id.0);
                    assert(has_client(post, client_id.0));
                    let j = client_index(post, client_id.0);
                    assert(0 <= j < post.len() && post[j].0 == client_id.0);
                    assert(j == post.len() - 1) by {
                        if j < post.len() - 1 {
                            assert(pre_view[j].0 == client_id.0);
                            assert(has_client(pre_view, client_id.0));
                        }
                    }
                    assert(account_of(post, client_id.0) == fresh_account());
                }
                Ok(fresh)
            },
        }
    }

    /// Look up the account for `client_id` without materializing one.
    pub fn get(&self, client_id: ClientId) -> (r: Option<State>)
        ensures
            match r {
                Some(acct) => has_client(self@, client_id.0) && acct@ == account_of(
                    self@,
                    client_id.0,
                ),
                None => !has_client(self@, client_id.0),
            },
    {
        proof {
            use_type_invariant(&*self);
        }
        match imap_get(&self.inner, client_id.0) {
            Some(raw) => {
                proof {
                    let entries = account_entries(self.inner);
                    let i = choose|i: int|
                        0 <= i < entries.len() && entries[i] == (client_id.0, raw);
                    assert(self@[i].0 == client_id.0 && self@[i].1 == raw_model(raw));
                    let j = client_index(self@, client_id.0);
                    assert(0 <= j < self@.len() && self@[j].0 == client_id.0);
                    assert(j == i);
                }
                Some(
                    State {
                        total: raw.0,
                        held: raw.1,
                        access: if raw.2 {
                            Access::Locked
                        } else {
                            Access::Active
                        },
                    },
                )
            },
            None => {
                proof {
                    let entries = account_entries(self.inner);
                    assert forall|i: int| 0 <= i < self@.len() implies (#[trigger] self@[i]).0
                        != client_id.0 by {
                        assert(self@[i].0 == entries[i].0);
                    }
                }
                None
            },
        }
    }

    /// All accounts, in first-reference order.
    pub fn entries(&self) -> (r: Vec<(ClientId, State)>)
        ensures
            r@.len() == self@.len(),
            forall|i: int|
                0 <= i < r@.len() ==> (#[trigger] r@[i]).0.0 == self@[i].0 && r@[i].1@
                    == self@[i].1,
    {
        let raw = imap_entries_vec(&self.inner);
        let mut out: Vec<(ClientId, State)> = Vec::new();
        let mut idx: usize = 0;
        while idx < raw.len()
            invariant
                idx <= raw.len(),
                raw@ == account_entries(self.inner),
                out@.len() == idx,
                forall|i: int|
                    0 <= i < idx ==> (#[trigger] out@[i]).0.0 == self@[i].0 && out@[i].1@
                        == self@[i].1,
            decreases raw.len() - idx,
        {
            let (key, v) = raw[idx];
            out.push(
                (
                    ClientId(key),
                    State {
                        total: v.0,
                        held: v.1,
                        access: if v.2 {
                            Access::Locked
                        } else {
                            Access::Active
                        },
                    },
                ),
            );
            idx = idx + 1;
        }
        out
    }

    /// Give up the store and hand back the backing map.
    pub fn into_inner(self) -> (r: IndexMap<u16, RawAccount, RandomState>)
        ensures
            entries_view(account_entries(r)) == self@,
    {
        self.inner
    }
}

/// How one trusted insert changes the raw entries: uniqueness is preserved,
/// and the model sequence changes by `put_account`.
proof fn lemma_put_preserves(
    pre: Seq<(u16, RawAccount)>,
    post: Seq<(u16, RawAccount)>,
    key: u16,
    value: RawAccount,
)
    requires
        unique_keys(pre),
        post == ({
            if exists|i: int| 0 <= i < pre.len() && (#[trigger] pre[i]).0 == key {
                pre.update(
                    choose|i: int| 0 <= i < pre.len() && (#[trigger] pre[i]).0 == key,
                    (key, value),
                )
            } else {
                pre.push((key, value))
            }
        }),
    ensures
        unique_keys(post),
        entries_view(post) == put_account(entries_view(pre), key, raw_model(value)),
{
    let vpre = entries_view(pre);
    if exists|i: int| 0 <= i < pre.len() && (#[trigger] pre[i]).0 == key {
        let i = choose|i: int| 0 <= i < pre.len() && (#[trigger] pre[i]).0 == key;
        assert(post == pre.update(i, (key, value)));
        assert forall|a: int, b: int| 0 <= a < b < post.len() implies post[a].0 != post[b].0 by {
            assert(post[a].0 == pre[a].0 && post[b].0 == pre[b].0);
        }
        assert(vpre[i].0 == key);
        assert(has_client(vpre, key));
        let j = client_index(vpre, key);
        assert(0 <= j < vpre.len() && vpre[j].0 == key);
        assert(pre[j].0 == key);
        assert(j == i);
        assert(entries_view(post) =~= set_account(vpre, key, raw_model(value)));
    } else {
        assert forall|a: int, b: int| 0 <= a < b < post.len() implies post[a].0 != post[b].0 by {
            if b < post.len() - 1 {
                assert(post[a].0 == pre[a].0 && post[b].0 == pre[b].0);
            } else {
                assert(post[b].0 == key);
                assert(post[a].0 == pre[a].0);
            }
        }
        assert(!has_client(vpre, key)) by {
            assert forall|i: int| 0 <= i < vpre.len() implies (#[trigger] vpre[i]).0 != key by {
                assert(vpre[i].0 == pre[i].0);
            }
        }
        assert(entries_view(post) =~= vpre.push((key, raw_model(value))));
    }
}

} // verus!
