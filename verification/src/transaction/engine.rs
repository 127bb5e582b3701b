//! The account ledger: per-client account state and the rules that apply
//! each transaction to it.
//!
//! The behaviour of one account is pinned down by the specification
//! function [`apply_txn`], a transition function on the mathematical
//! model [`AccountModel`]. The executable code is proved to follow it
//! exactly, and the laws at the end of this file are proved about it.

use vstd::prelude::*;
use std::collections::HashMap;

use crate::amount::Amount;
use super::{Account, ClientId, Transaction, TransactionId, TransactionOperation};

verus! {

broadcast use vstd::std_specs::hash::group_hash_axioms;

/// Mathematical model of one recorded deposit or withdrawal.
pub ghost struct RecordModel {
    /// The amount the transaction carried, in minor units, fixed forever
    /// when the record is created.
    pub amount: int,
    /// Whether the record is under an active dispute.
    pub disputed: bool,
}

/// Mathematical model of one client's account.
pub ghost struct AccountModel {
    /// The client the account belongs to.
    pub id: u16,
    /// Funds the client can spend, in minor units.
    pub available: int,
    /// Funds frozen under active disputes, in minor units.
    pub held: int,
    /// Available plus held funds, in minor units.
    pub total: int,
    /// Set by a chargeback; never reset.
    pub locked: bool,
    /// Every deposit or withdrawal this account has seen, by transaction id.
    pub records: Map<u32, RecordModel>,
}

/// The state a freshly created account starts in.
pub open spec fn empty_account(id: u16) -> AccountModel {
    AccountModel {
        id,
        available: 0,
        held: 0,
        total: 0,
        locked: false,
        records: Map::empty(),
    }
}

/// Whether a balance stays representable in the machine type balances are
/// stored in. A step whose arithmetic would leave this range is ignored.
pub open spec fn fits(v: int) -> bool {
    i64::MIN <= v <= i64::MAX
}

/// A deposit: credited once per transaction id; a replay of an id already
/// on record changes nothing.
pub open spec fn apply_deposit(m: AccountModel, id: u32, amount: int) -> AccountModel {
    if m.records.contains_key(id) {
        m
    } else if fits(m.available + amount) && fits(m.total + amount) {
        AccountModel {
            available: m.available + amount,
            total: m.total + amount,
            records: m.records.insert(id, RecordModel { amount, disputed: false }),
            ..m
        }
    } else {
        m
    }
}

/// A withdrawal: debited once per transaction id, and only when it leaves
/// the available balance non-negative; otherwise the balances stay as they
/// are. Either way a fresh id goes on record, so a rejected withdrawal
/// still occupies its transaction id.
pub open spec fn apply_withdrawal(m: AccountModel, id: u32, amount: int) -> AccountModel {
    if m.records.contains_key(id) {
        m
    } else {
        let records = m.records.insert(id, RecordModel { amount, disputed: false });
        if fits(m.available - amount) && m.available - amount >= 0 && fits(m.total - amount) {
            AccountModel {
                available: m.available - amount,
                total: m.total - amount,
                records,
                ..m
            }
        } else {
            AccountModel { records, ..m }
        }
    }
}

/// A dispute: moves the recorded amount from available to held and marks
/// the record disputed. A reference to an unknown or already disputed
/// record changes nothing.
pub open spec fn apply_dispute(m: AccountModel, id: u32) -> AccountModel {
    if m.records.contains_key(id) && !m.records[id].disputed {
        let amount = m.records[id].amount;
        if fits(m.available - amount) && fits(m.held + amount) {
            AccountModel {
                available: m.available - amount,
                held: m.held + amount,
                records: m.records.insert(id, RecordModel { amount, disputed: true }),
                ..m
            }
        } else {
            m
        }
    } else {
        m
    }
}

/// A resolve: reverses a dispute, releasing the held amount back to
/// available and clearing the disputed mark. A reference to an unknown or
/// undisputed record changes nothing.
pub open spec fn apply_resolve(m: AccountModel, id: u32) -> AccountModel {
    if m.records.contains_key(id) && m.records[id].disputed {
        let amount = m.records[id].amount;
        if fits(m.available + amount) && fits(m.held - amount) {
            AccountModel {
                available: m.available + amount,
                held: m.held - amount,
                records: m.records.insert(id, RecordModel { amount, disputed: false }),
                ..m
            }
        } else {
            m
        }
    } else {
        m
    }
}

/// A chargeback: removes the held amount from the account and locks it
/// for good. The record keeps its disputed mark. A reference to an
/// unknown or undisputed record changes nothing.
pub open spec fn apply_chargeback(m: AccountModel, id: u32) -> AccountModel {
    if m.records.contains_key(id) && m.records[id].disputed {
        let amount = m.records[id].amount;
        if fits(m.held - amount) && fits(m.total - amount) {
            AccountModel {
                held: m.held - amount,
                total: m.total - amount,
                locked: true,
                ..m
            }
        } else {
            m
        }
    } else {
        m
    }
}

/// The transition function of one account: what applying a transaction
/// with the given id and operation does to its state.
pub open spec fn apply_txn(m: AccountModel, id: u32, op: TransactionOperation) -> AccountModel {
    match op {
        TransactionOperation::Deposit(a) => apply_deposit(m, id, a@),
        TransactionOperation::Withdrawal(a) => apply_withdrawal(m, id, a@),
        TransactionOperation::Dispute => apply_dispute(m, id),
        TransactionOperation::Resolve => apply_resolve(m, id),
        TransactionOperation::Chargeback => apply_chargeback(m, id),
    }
}

/// Whether the snapshot `a` shows exactly the balances of the account
/// state `m`.
pub open spec fn is_snapshot_of(a: Account, m: AccountModel) -> bool {
    &&& a.client.0 == m.id
    &&& a.available@ == m.available
    &&& a.held@ == m.held
    &&& a.total@ == m.total
    &&& a.locked == m.locked
}

/// Law: the balances stay consistent. Whatever transaction is applied to
/// an account whose total equals its available plus its held funds, the
/// account after it still has `total == available + held`. Every account
/// starts from [`empty_account`], where all three are zero, so the
/// equality holds at every observation point.
pub proof fn lemma_apply_preserves_balance(m: AccountModel, id: u32, op: TransactionOperation)
    requires
        m.total == m.available + m.held,
    ensures
        apply_txn(m, id, op).total == apply_txn(m, id, op).available + apply_txn(m, id, op).held,
{
}

/// Law: the balances stay non-negative, as long as no step moves more
/// than what is there. Disputing a recorded withdrawal (or any record
/// whose amount exceeds the available balance) is the acknowledged
/// exception that can drive `available` below zero, and is excluded
/// here, as are deposits of negative amounts and settlements of more
/// than is held (a resolve after a chargeback can reference such a
/// record). Under these premises, `available >= 0`, `held >= 0` and
/// `total >= available` are preserved by every step.
pub proof fn lemma_apply_preserves_nonnegative(m: AccountModel, id: u32, op: TransactionOperation)
    requires
        m.total == m.available + m.held,
        m.available >= 0,
        m.held >= 0,
        op matches TransactionOperation::Deposit(a) ==> a@ >= 0,
        op is Dispute && m.records.contains_key(id) && !m.records[id].disputed ==> 0
            <= m.records[id].amount <= m.available,
        (op is Resolve || op is Chargeback) && m.records.contains_key(id)
            && m.records[id].disputed ==> 0 <= m.records[id].amount <= m.held,
    ensures
        apply_txn(m, id, op).available >= 0,
        apply_txn(m, id, op).held >= 0,
        apply_txn(m, id, op).total >= apply_txn(m, id, op).available,
{
    lemma_apply_preserves_balance(m, id, op);
}

/// Whether every account of the ledger has consistent balances:
/// `total == available + held`.
pub open spec fn all_balanced(m: Map<u16, AccountModel>) -> bool {
    forall|c: u16| m.contains_key(c) ==> (#[trigger] m[c]).total == m[c].available + m[c].held
}

/// Law: the whole ledger stays consistent. One step of
/// [`TransactionEngine::process`] that applies a transaction — to an
/// existing account or to one created for a first deposit — leaves every
/// account with `total == available + held`. A new engine's ledger is
/// empty, so this holds at every observation point of a run.
pub proof fn lemma_ledger_stays_balanced(
    m: Map<u16, AccountModel>,
    c: u16,
    id: u32,
    op: TransactionOperation,
)
    requires
        all_balanced(m),
    ensures
        all_balanced(
            m.insert(
                c,
                apply_txn(
                    if m.contains_key(c) {
                        m[c]
                    } else {
                        empty_account(c)
                    },
                    id,
                    op,
                ),
            ),
        ),
{
    let pre = if m.contains_key(c) {
        m[c]
    } else {
        empty_account(c)
    };
    lemma_apply_preserves_balance(pre, id, op);
}

/// Law: replaying a transaction id is a no-op. A deposit or withdrawal
/// whose id is already on record leaves the account exactly as it was:
/// balances, lock and records alike.
pub proof fn lemma_replay_is_noop(m: AccountModel, id: u32, op: TransactionOperation)
    requires
        m.records.contains_key(id),
        op is Deposit || op is Withdrawal,
    ensures
        apply_txn(m, id, op) == m,
{
}

/// Law: a lock is permanent. No transaction ever clears `locked`.
pub proof fn lemma_locked_monotonic(m: AccountModel, id: u32, op: TransactionOperation)
    requires
        m.locked,
    ensures
        apply_txn(m, id, op).locked,
{
}

/// One recorded deposit or withdrawal.
#[derive(Clone, Copy, Debug)]
pub struct TransactionEntry {
    /// Amount of the transaction, fixed at creation.
    pub amount: Amount,
    /// Whether the transaction is under an active dispute.
    pub disputed: bool,
}

impl View for TransactionEntry {
    type V = RecordModel;

    open spec fn view(&self) -> RecordModel {
        RecordModel { amount: self.amount@, disputed: self.disputed }
    }
}

/// The live state of one client's account.
#[derive(Debug)]
pub struct ClientEntry {
    /// Client that this entry refers to.
    pub id: ClientId,
    /// Funds available for withdrawal.
    pub available: Amount,
    /// Funds held for dispute.
    pub held: Amount,
    /// Funds available or held.
    pub total: Amount,
    /// Whether a chargeback has locked the account.
    pub locked: bool,
    /// Deposits and withdrawals already processed, by transaction id.
    pub transactions: HashMap<u32, TransactionEntry>,
}

impl View for ClientEntry {
    type V = AccountModel;

    open spec fn view(&self) -> AccountModel {
        AccountModel {
            id: self.id.0,
            available: self.available@,
            held: self.held@,
            total: self.total@,
            locked: self.locked,
            records: Map::new(
                |id: u32| self.transactions@.contains_key(id),
                |id: u32| self.transactions@[id]@,
            ),
        }
    }
}

impl ClientEntry {
    /// A fresh account for `id`, with zero balances and no records.
    pub fn new(id: ClientId) -> (r: ClientEntry)
        ensures
            r@ == empty_account(id.0),
    {
        let r = ClientEntry {
            id,
            available: Amount::zero(),
            held: Amount::zero(),
            total: Amount::zero(),
            locked: false,
            transactions: HashMap::new(),
        };
        proof {
            assert(r@.records =~= empty_account(id.0).records);
            assert(r@ == empty_account(id.0));
        }
        r
    }

    /// Applies one transaction to this account, exactly as the transition
    /// function [`apply_txn`] says, and returns the snapshot after it.
    pub fn apply(&mut self, transaction: Transaction) -> (r: Account)
        ensures
            final(self)@ == apply_txn(old(self)@, transaction.id.0, transaction.operation),
            is_snapshot_of(r, final(self)@),
    {
        let id = transaction.id.0;

        match transaction.operation {
            TransactionOperation::Deposit(amount) => {
                if !self.transactions.contains_key(&id) {
                    let available = self.available.minor.checked_add(amount.minor);
                    let total = self.total.minor.checked_add(amount.minor);
                    if available.is_some() && total.is_some() {
                        self.available = Amount::from_minor(available.unwrap());
                        self.total = Amount::from_minor(total.unwrap());
                        self.transactions.insert(id, TransactionEntry { amount, disputed: false });
                        proof {
                            assert(self@.records =~= apply_txn(old(self)@, id, transaction.operation).records);
                        }
                    }
                }
            }

            TransactionOperation::Withdrawal(amount) => {
                if !self.transactions.contains_key(&id) {
                    let available = self.available.minor.checked_sub(amount.minor);
                    let total = self.total.minor.checked_sub(amount.minor);
                    if available.is_some() && available.unwrap() >= 0 && total.is_some() {
                        self.available = Amount::from_minor(available.unwrap());
                        self.total = Amount::from_minor(total.unwrap());
                    }
                    self.transactions.insert(id, TransactionEntry { amount, disputed: false });
                    proof {
                        assert(self@.records =~= apply_txn(old(self)@, id, transaction.operation).records);
                    }
                }
            }

            TransactionOperation::Dispute => {
                if let Some(disputed_tx) = self.transactions.get(&id) {
                    let entry = *disputed_tx;
                    if !entry.disputed {
                        let available = self.available.minor.checked_sub(entry.amount.minor);
                        let held = self.held.minor.checked_add(entry.amount.minor);
                        if available.is_some() && held.is_some() {
                            self.available = Amount::from_minor(available.unwrap());
                            self.held = Amount::from_minor(held.unwrap());
                            self.transactions.insert(id, TransactionEntry { amount: entry.amount, disputed: true });
                            proof {
                                assert(self@.records =~= apply_txn(old(self)@, id, transaction.operation).records);
                            }
                        }
                    }
                }
            }

            TransactionOperation::Resolve => {
                if let Some(disputed_tx) = self.transactions.get(&id) {
                    let entry = *disputed_tx;
                    if entry.disputed {
                        let available = self.available.minor.checked_add(entry.amount.minor);
                        let held = self.held.minor.checked_sub(entry.amount.minor);
                        if available.is_some() && held.is_some() {
                            self.available = Amount::from_minor(available.unwrap());
                            self.held = Amount::from_minor(held.unwrap());
                            self.transactions.insert(id, TransactionEntry { amount: entry.amount, disputed: false });
                            proof {
                                assert(self@.records =~= apply_txn(old(self)@, id, transaction.operation).records);
                            }
                        }
                    }
                }
            }

            TransactionOperation::Chargeback => {
                if let Some(disputed_tx) = self.transactions.get(&id) {
                    let entry = *disputed_tx;
                    if entry.disputed {
                        let held = self.held.minor.checked_sub(entry.amount.minor);
                        let total = self.total.minor.checked_sub(entry.amount.minor);
                        if held.is_some() && total.is_some() {
                            self.held = Amount::from_minor(held.unwrap());
                            self.total = Amount::from_minor(total.unwrap());
                            self.locked = true;
                        }
                    }
                }
            }
        }

        proof {
            assert(self@.records =~= apply_txn(old(self)@, id, transaction.operation).records);
            assert(self@ == apply_txn(old(self)@, id, transaction.operation));
        }
        self.as_account()
    }

    /// The account's current balances as an immutable snapshot.
    pub fn as_account(&self) -> (r: Account)
        ensures
            is_snapshot_of(r, self@),
    {
        Account {
            client: self.id,
            available: self.available,
            held: self.held,
            total: self.total,
            locked: self.locked,
        }
    }
}

/// The ledger: every account the run has created, each applied its
/// client's transactions in order.
pub struct TransactionEngine {
    /// The accounts, by client id.
    pub clients: HashMap<u16, ClientEntry>,
    /// The client ids present in `clients`, in order of first deposit;
    /// kept so snapshots can walk every account.
    pub order: Vec<u16>,
}

impl View for TransactionEngine {
    type V = Map<u16, AccountModel>;

    open spec fn view(&self) -> Map<u16, AccountModel> {
        Map::new(
            |c: u16| self.clients@.contains_key(c),
            |c: u16| self.clients@[c]@,
        )
    }
}

impl TransactionEngine {
    /// The ledger's internal consistency: `order` lists each known client
    /// id exactly once, and each account is filed under its own id.
    pub open spec fn wf(self) -> bool {
        &&& self.order@.no_duplicates()
        &&& forall|i: int|
            0 <= i < self.order@.len() ==> self.clients@.contains_key(#[trigger] self.order@[i])
        &&& forall|c: u16| self.clients@.contains_key(c) ==> self.order@.contains(c)
        &&& forall|c: u16|
            self.clients@.contains_key(c) ==> (#[trigger] self.clients@[c]).id.0 == c
    }

    /// Create a new, empty transaction engine.
    pub fn new() -> (r: TransactionEngine)
        ensures
            r.wf(),
            r@ == Map::<u16, AccountModel>::empty(),
    {
        let r = TransactionEngine { clients: HashMap::new(), order: Vec::new() };
        proof {
            assert(r@ =~= Map::<u16, AccountModel>::empty());
        }
        r
    }

    /// Process a transaction.
    ///
    /// A deposit creates its client's account on demand; any other
    /// operation aimed at an unknown client changes nothing and returns
    /// `None`. Otherwise the transaction is applied to the account as
    /// [`apply_txn`] says and the snapshot after it is returned.
    pub fn process(&mut self, transaction: Transaction) -> (r: Option<Account>)
        requires
            old(self).wf(),
        ensures
            final(self).wf(),
            all_balanced(old(self)@) ==> all_balanced(final(self)@),
            ({
                let c = transaction.client.0;
                let existed = old(self)@.contains_key(c);
                let pre = if existed {
                    old(self)@[c]
                } else {
                    empty_account(c)
                };
                if existed || transaction.operation is Deposit {
                    let post = apply_txn(pre, transaction.id.0, transaction.operation);
                    &&& final(self)@ == old(self)@.insert(c, post)
                    &&& r matches Some(a) && is_snapshot_of(a, post)
                } else {
                    &&& final(self)@ == old(self)@
                    &&& r is None
                }
            }),
    {
        let c = transaction.client.0;
        let is_deposit = matches!(transaction.operation, TransactionOperation::Deposit(_));
        if is_deposit && !self.clients.contains_key(&c) {
            self.clients.insert(c, ClientEntry::new(transaction.client));
            self.order.push(c);
            proof {
                assert forall|x: u16| self.clients@.contains_key(x) implies self.order@.contains(
                    x,
                ) by {
                    if x == c {
                        assert(self.order@[self.order@.len() - 1] == c);
                    } else {
                        assert(old(self).clients@.contains_key(x));
                        assert(old(self).order@.contains(x));
                        let j = choose|j: int|
                            0 <= j < old(self).order@.len() && old(self).order@[j] == x;
                        assert(self.order@[j] == x);
                    }
                }
            }
        }
        let ghost mid = *self;
        match self.clients.remove(&c) {
            Some(mut entry) => {
                let account = entry.apply(transaction);
                self.clients.insert(c, entry);
                proof {
                    assert(self.clients@ =~= mid.clients@.insert(c, entry));
                    assert(self@ =~= mid@.insert(c, entry@));
                    if old(self)@.contains_key(c) {
                        assert(self@ =~= old(self)@.insert(c, entry@));
                    } else {
                        assert(mid@ =~= old(self)@.insert(c, empty_account(c)));
                        assert(self@ =~= old(self)@.insert(c, entry@));
                    }
                    if all_balanced(old(self)@) {
                        lemma_ledger_stays_balanced(
                            old(self)@,
                            c,
                            transaction.id.0,
                            transaction.operation,
                        );
                    }
                }
                Some(account)
            }
            None => {
                proof {
                    assert(self@ =~= old(self)@);
                }
                None
            }
        }
    }

    /// Every account currently known, as immutable snapshots, one per
    /// client, in unspecified order.
    pub fn accounts(&self) -> (r: Vec<Account>)
        requires
            self.wf(),
        ensures
            forall|i: int|
                0 <= i < r@.len() ==> self@.contains_key((#[trigger] r@[i]).client.0)
                    && is_snapshot_of(r@[i], self@[r@[i].client.0]),
            forall|c: u16|
                self@.contains_key(c) ==> exists|i: int|
                    0 <= i < r@.len() && (#[trigger] r@[i]).client.0 == c,
            Seq::new(r@.len(), |i: int| r@[i].client.0).no_duplicates(),
    {
        let mut r: Vec<Account> = Vec::new();
        let n = self.order.len();
        for k in 0..n
            invariant
                n == self.order@.len(),
                self.wf(),
                r@.len() == k,
                forall|i: int| 0 <= i < k ==> (#[trigger] r@[i]).client.0 == self.order@[i],
                forall|i: int|
                    0 <= i < k ==> self@.contains_key((#[trigger] r@[i]).client.0)
                        && is_snapshot_of(r@[i], self@[r@[i].client.0]),
        {
            let c = self.order[k];
            let entry = self.clients.get(&c).unwrap();
            r.push(entry.as_account());
        }
        proof {
            assert forall|c: u16| self@.contains_key(c) implies exists|i: int|
                0 <= i < r@.len() && (#[trigger] r@[i]).client.0 == c by {
                assert(self.clients@.contains_key(c));
                assert(self.order@.contains(c));
                let j = choose|j: int| 0 <= j < self.order@.len() && self.order@[j] == c;
                assert(r@[j].client.0 == c);
            }
            let ids = Seq::new(r@.len(), |i: int| r@[i].client.0);
            assert(ids =~= self.order@);
        }
        r
    }

    /// The snapshot of one client's account, or `None` when no account
    /// exists for that client.
    pub fn account_of(&self, client: ClientId) -> (r: Option<Account>)
        ensures
            match r {
                Some(a) => self@.contains_key(client.0) && is_snapshot_of(a, self@[client.0]),
                None => !self@.contains_key(client.0),
            },
    {
        match self.clients.get(&client.0) {
            Some(entry) => Some(entry.as_account()),
            None => None,
        }
    }
}

} // verus!
