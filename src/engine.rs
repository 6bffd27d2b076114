//! The per-lane ledger state machine: accounts by client, and the deposits
//! and withdrawals that later dispute operations refer to.

use crate::amount::{
    checked_difference, checked_sum, decimal_difference, decimal_sum, is_less, less_than, Amount,
};
use std::collections::HashMap;
use vstd::prelude::*;

verus! {

broadcast use vstd::std_specs::hash::group_hash_axioms;

/// A unique identifier for a client.
pub type ClientId = u16;

/// A unique identifier for a transaction.
pub type TransactionId = u32;

/// The dispute status of a stored transaction.
#[derive(Clone, Copy, Debug, PartialEq, Eq, Structural)]
pub enum DisputeStatus {
    /// Never disputed.
    NotDisputed,
    /// Currently under dispute.
    Disputed,
    /// Disputed, then resolved in the client's favour.
    Resolved,
    /// Disputed, then charged back; no further transitions.
    ChargedBack,
}

/// The kind of an input record.
#[derive(Clone, Copy, Debug, PartialEq, Eq, Structural)]
pub enum TransactionType {
    Deposit,
    Withdrawal,
    Dispute,
    Resolve,
    Chargeback,
}

/// One input record.
#[derive(Clone, Copy, Debug, PartialEq, Eq, Structural)]
pub struct InputTransaction {
    pub transaction_type: TransactionType,
    pub client_id: ClientId,
    pub tx_id: TransactionId,
    /// Present for deposits and withdrawals.
    pub amount: Option<Amount>,
}

impl InputTransaction {
    pub open spec fn wf(self) -> bool {
        self.amount matches Some(a) ==> a.wf()
    }
}

/// The state of a client's account.
#[derive(Clone, Copy, Debug, PartialEq, Eq, Structural)]
pub struct Account {
    pub id: ClientId,
    pub available: Amount,
    pub held: Amount,
    pub locked: bool,
}

impl Account {
    pub open spec fn wf(self) -> bool {
        self.available.wf() && self.held.wf()
    }

    pub open spec fn spec_new(id: ClientId) -> Account {
        Account { id, available: Amount::spec_zero(), held: Amount::spec_zero(), locked: false }
    }

    /// A new, empty, unlocked account.
    pub fn new(id: ClientId) -> (r: Account)
        ensures
            r == Account::spec_new(id),
            r.wf(),
    {
        Account { id, available: Amount::zero(), held: Amount::zero(), locked: false }
    }

    /// The total funds, `available + held`; `None` where the sum overflows.
    pub fn total(&self) -> (r: Option<Amount>)
        requires
            self.wf(),
        ensures
            r == decimal_sum(self.available, self.held),
    {
        checked_sum(&self.available, &self.held)
    }
}

/// A deposit or withdrawal kept for later disputes.
#[derive(Clone, Copy, Debug, PartialEq, Eq, Structural)]
pub struct StoredTransaction {
    pub client_id: ClientId,
    /// The magnitude of the deposit or withdrawal.
    pub amount: Amount,
    pub dispute_status: DisputeStatus,
}

/// The mathematical state of one lane: accounts by client, stored
/// transactions by id.
pub struct Ledger {
    pub accounts: Map<ClientId, Account>,
    pub txs: Map<TransactionId, StoredTransaction>,
}

/// The account of client `c`, or a new one.
pub open spec fn account_or_new(accounts: Map<ClientId, Account>, c: ClientId) -> Account {
    if accounts.contains_key(c) {
        accounts[c]
    } else {
        Account::spec_new(c)
    }
}

/// A freshly stored deposit or withdrawal.
pub open spec fn fresh_stored(c: ClientId, a: Amount) -> StoredTransaction {
    StoredTransaction { client_id: c, amount: a, dispute_status: DisputeStatus::NotDisputed }
}

pub open spec fn with_available(acct: Account, v: Amount) -> Account {
    Account { id: acct.id, available: v, held: acct.held, locked: acct.locked }
}

pub open spec fn with_status(st: StoredTransaction, s: DisputeStatus) -> StoredTransaction {
    StoredTransaction { client_id: st.client_id, amount: st.amount, dispute_status: s }
}

impl Ledger {
    pub open spec fn empty() -> Ledger {
        Ledger { accounts: Map::empty(), txs: Map::empty() }
    }

    pub open spec fn wf(self) -> bool {
        &&& forall|c: ClientId| #[trigger]
            self.accounts.contains_key(c) ==> self.accounts[c].wf()
        &&& forall|t: TransactionId| #[trigger]
            self.txs.contains_key(t) ==> self.txs[t].amount.wf()
    }

    /// The ledger with client `c`'s account present.
    pub open spec fn opened(self, c: ClientId) -> Ledger {
        Ledger { accounts: self.accounts.insert(c, account_or_new(self.accounts, c)), txs: self.txs }
    }

    /// Deposit: a non-negative amount into an unlocked account, stored under `t`.
    pub open spec fn deposit(self, c: ClientId, t: TransactionId, amount: Option<Amount>) -> Ledger {
        match amount {
            None => self,
            Some(a) => if a.mantissa < 0 {
                self
            } else {
                let acct = account_or_new(self.accounts, c);
                if acct.locked {
                    self.opened(c)
                } else {
                    match decimal_sum(acct.available, a) {
                        None => self.opened(c),
                        Some(v) => Ledger {
                            accounts: self.accounts.insert(c, with_available(acct, v)),
                            txs: self.txs.insert(t, fresh_stored(c, a)),
                        },
                    }
                }
            },
        }
    }

    /// Withdrawal: a non-negative amount, no more than is available, from an
    /// unlocked account, stored under `t`.
    pub open spec fn withdraw(self, c: ClientId, t: TransactionId, amount: Option<Amount>) -> Ledger {
        match amount {
            None => self,
            Some(a) => if a.mantissa < 0 {
                self
            } else {
                let acct = account_or_new(self.accounts, c);
                if acct.locked || less_than(acct.available, a) {
                    self.opened(c)
                } else {
                    match decimal_difference(acct.available, a) {
                        None => self.opened(c),
                        Some(v) => Ledger {
                            accounts: self.accounts.insert(c, with_available(acct, v)),
                            txs: self.txs.insert(t, fresh_stored(c, a)),
                        },
                    }
                }
            },
        }
    }

    /// Whether `t` is stored for client `c`, whose account exists and is unlocked.
    pub open spec fn refers(self, c: ClientId, t: TransactionId) -> bool {
        &&& self.txs.contains_key(t)
        &&& self.txs[t].client_id == c
        &&& self.accounts.contains_key(c)
        &&& !self.accounts[c].locked
    }

    /// Dispute: moves the stored amount from available to held.
    pub open spec fn dispute(self, c: ClientId, t: TransactionId) -> Ledger {
        if self.refers(c, t) && (self.txs[t].dispute_status == DisputeStatus::NotDisputed
            || self.txs[t].dispute_status == DisputeStatus::Resolved) {
            let st = self.txs[t];
            let acct = self.accounts[c];
            match (decimal_difference(acct.available, st.amount), decimal_sum(acct.held, st.amount)) {
                (Some(av), Some(h)) => Ledger {
                    accounts: self.accounts.insert(
                        c,
                        Account { id: acct.id, available: av, held: h, locked: false },
                    ),
                    txs: self.txs.insert(t, with_status(st, DisputeStatus::Disputed)),
                },
                _ => self,
            }
        } else {
            self
        }
    }

    /// Resolve: moves the stored amount from held back to available.
    pub open spec fn resolve(self, c: ClientId, t: TransactionId) -> Ledger {
        if self.refers(c, t) && self.txs[t].dispute_status == DisputeStatus::Disputed {
            let st = self.txs[t];
            let acct = self.accounts[c];
            match (decimal_sum(acct.available, st.amount), decimal_difference(acct.held, st.amount)) {
                (Some(av), Some(h)) => Ledger {
                    accounts: self.accounts.insert(
                        c,
                        Account { id: acct.id, available: av, held: h, locked: false },
                    ),
                    txs: self.txs.insert(t, with_status(st, DisputeStatus::Resolved)),
                },
                _ => self,
            }
        } else {
            self
        }
    }

    /// Chargeback: removes the stored amount from held and locks the account.
    pub open spec fn chargeback(self, c: ClientId, t: TransactionId) -> Ledger {
        if self.refers(c, t) && self.txs[t].dispute_status == DisputeStatus::Disputed {
            let st = self.txs[t];
            let acct = self.accounts[c];
            match decimal_difference(acct.held, st.amount) {
                Some(h) => Ledger {
                    accounts: self.accounts.insert(
                        c,
                        Account { id: acct.id, available: acct.available, held: h, locked: true },
                    ),
                    txs: self.txs.insert(t, with_status(st, DisputeStatus::ChargedBack)),
                },
                None => self,
            }
        } else {
            self
        }
    }

    /// One record applied.
    pub open spec fn apply(self, r: InputTransaction) -> Ledger {
        match r.transaction_type {
            TransactionType::Deposit => self.deposit(r.client_id, r.tx_id, r.amount),
            TransactionType::Withdrawal => self.withdraw(r.client_id, r.tx_id, r.amount),
            TransactionType::Dispute => self.dispute(r.client_id, r.tx_id),
            TransactionType::Resolve => self.resolve(r.client_id, r.tx_id),
            TransactionType::Chargeback => self.chargeback(r.client_id, r.tx_id),
        }
    }

    /// The records applied in order.
    pub open spec fn run(self, rs: Seq<InputTransaction>) -> Ledger
        decreases rs.len(),
    {
        if rs.len() == 0 {
            self
        } else {
            self.run(rs.drop_last()).apply(rs.last())
        }
    }
}

/// The ledger of one lane.
pub struct PaymentEngine {
    /// Accounts by client.
    pub accounts: HashMap<ClientId, Account>,
    /// Stored deposits and withdrawals by transaction id.
    pub transactions: HashMap<TransactionId, StoredTransaction>,
}

impl View for PaymentEngine {
    type V = Ledger;

    open spec fn view(&self) -> Ledger {
        Ledger { accounts: self.accounts@, txs: self.transactions@ }
    }
}

impl Default for PaymentEngine {
    fn default() -> (r: PaymentEngine)
        ensures
            r@ == Ledger::empty(),
            r.wf(),
    {
        PaymentEngine::new()
    }
}

impl PaymentEngine {
    pub open spec fn wf(&self) -> bool {
        self@.wf()
    }

    /// An engine with no accounts and no stored transactions.
    pub fn new() -> (r: PaymentEngine)
        ensures
            r@ == Ledger::empty(),
            r.wf(),
    {
        let r = PaymentEngine { accounts: HashMap::new(), transactions: HashMap::new() };
        assert(r@.accounts =~= Map::empty());
        assert(r@.txs =~= Map::empty());
        r
    }

    /// The account of client `c`, created if missing.
    fn open_account(&mut self, c: ClientId) -> (r: Account)
        requires
            old(self).wf(),
        ensures
            final(self)@ == old(self)@.opened(c),
            r == account_or_new(old(self)@.accounts, c),
            final(self).wf(),
    {
        let account = match self.accounts.get(&c) {
            Some(a) => *a,
            None => Account::new(c),
        };
        self.accounts.insert(c, account);
        account
    }

    /// Applies a deposit: a non-negative amount into an unlocked account, where
    /// the new balance does not overflow. Otherwise the ledger stays as it was,
    /// but for the account being opened where the amount is non-negative.
    pub fn handle_deposit(&mut self, tx: InputTransaction)
        requires
            old(self).wf(),
            tx.wf(),
        ensures
            final(self).wf(),
            final(self)@ == old(self)@.deposit(tx.client_id, tx.tx_id, tx.amount),
    {
        let amount = match tx.amount {
            Some(a) => a,
            None => return ,
        };
        if amount.is_negative() {
            return ;
        }
        let account = self.open_account(tx.client_id);
        if account.locked {
            return ;
        }
        if let Some(v) = checked_sum(&account.available, &amount) {
            let updated = Account {
                id: account.id,
                available: v,
                held: account.held,
                locked: account.locked,
            };
            self.accounts.insert(tx.client_id, updated);
            self.transactions.insert(
                tx.tx_id,
                StoredTransaction {
                    client_id: tx.client_id,
                    amount,
                    dispute_status: DisputeStatus::NotDisputed,
                },
            );
            assert(self@.accounts =~= old(self)@.accounts.insert(tx.client_id, updated));
        }
    }

    /// Applies a withdrawal: a non-negative amount, no more than is available,
    /// from an unlocked account. Otherwise the ledger stays as it was, but for
    /// the account being opened where the amount is non-negative.
    pub fn handle_withdrawal(&mut self, tx: InputTransaction)
        requires
            old(self).wf(),
            tx.wf(),
        ensures
            final(self).wf(),
            final(self)@ == old(self)@.withdraw(tx.client_id, tx.tx_id, tx.amount),
    {
        let amount = match tx.amount {
            Some(a) => a,
            None => return ,
        };
        if amount.is_negative() {
            return ;
        }
        let account = self.open_account(tx.client_id);
        if account.locked || is_less(&account.available, &amount) {
            return ;
        }
        if let Some(v) = checked_difference(&account.available, &amount) {
            let updated = Account {
                id: account.id,
                available: v,
                held: account.held,
                locked: account.locked,
            };
            self.accounts.insert(tx.client_id, updated);
            self.transactions.insert(
                tx.tx_id,
                StoredTransaction {
                    client_id: tx.client_id,
                    amount,
                    dispute_status: DisputeStatus::NotDisputed,
                },
            );
            assert(self@.accounts =~= old(self)@.accounts.insert(tx.client_id, updated));
        }
    }

    /// The stored transaction `t` and the account of client `c`, where `t`
    /// belongs to `c` and the account exists and is unlocked.
    fn referred(&self, c: ClientId, t: TransactionId) -> (r: Option<(StoredTransaction, Account)>)
        ensures
            r == (if self@.refers(c, t) {
                Some((self@.txs[t], self@.accounts[c]))
            } else {
                None
            }),
    {
        let stored = match self.transactions.get(&t) {
            Some(s) => *s,
            None => return None,
        };
        if stored.client_id != c {
            return None;
        }
        let account = match self.accounts.get(&c) {
            Some(a) => *a,
            None => return None,
        };
        if account.locked {
            return None;
        }
        Some((stored, account))
    }

    /// Applies a dispute: a stored transaction of the client that is not under
    /// dispute nor charged back has its amount moved from available to held.
    pub fn handle_dispute(&mut self, tx: InputTransaction)
        requires
            old(self).wf(),
        ensures
            final(self).wf(),
            final(self)@ == old(self)@.dispute(tx.client_id, tx.tx_id),
    {
        let (stored, account) = match self.referred(tx.client_id, tx.tx_id) {
            Some(p) => p,
            None => return ,
        };
        if stored.dispute_status == DisputeStatus::Disputed || stored.dispute_status
            == DisputeStatus::ChargedBack {
            return ;
        }
        let available = match checked_difference(&account.available, &stored.amount) {
            Some(v) => v,
            None => return ,
        };
        let held = match checked_sum(&account.held, &stored.amount) {
            Some(v) => v,
            None => return ,
        };
        self.accounts.insert(tx.client_id, Account { id: account.id, available, held, locked: false });
        self.transactions.insert(
            tx.tx_id,
            StoredTransaction {
                client_id: stored.client_id,
                amount: stored.amount,
                dispute_status: DisputeStatus::Disputed,
            },
        );
    }

    /// Applies a resolve: a disputed transaction of the client has its amount
    /// moved from held back to available.
    pub fn handle_resolve(&mut self, tx: InputTransaction)
        requires
            old(self).wf(),
        ensures
            final(self).wf(),
            final(self)@ == old(self)@.resolve(tx.client_id, tx.tx_id),
    {
        let (stored, account) = match self.referred(tx.client_id, tx.tx_id) {
            Some(p) => p,
            None => return ,
        };
        if stored.dispute_status != DisputeStatus::Disputed {
            return ;
        }
        let available = match checked_sum(&account.available, &stored.amount) {
            Some(v) => v,
            None => return ,
        };
        let held = match checked_difference(&account.held, &stored.amount) {
            Some(v) => v,
            None => return ,
        };
        self.accounts.insert(tx.client_id, Account { id: account.id, available, held, locked: false });
        self.transactions.insert(
            tx.tx_id,
            StoredTransaction {
                client_id: stored.client_id,
                amount: stored.amount,
                dispute_status: DisputeStatus::Resolved,
            },
        );
    }

    /// Applies a chargeback: a disputed transaction of the client has its
    /// amount removed from held, and the account is locked for good.
    pub fn handle_chargeback(&mut self, tx: InputTransaction)
        requires
            old(self).wf(),
        ensures
            final(self).wf(),
            final(self)@ == old(self)@.chargeback(tx.client_id, tx.tx_id),
    {
        let (stored, account) = match self.referred(tx.client_id, tx.tx_id) {
            Some(p) => p,
            None => return ,
        };
        if stored.dispute_status != DisputeStatus::Disputed {
            return ;
        }
        let held = match checked_difference(&account.held, &stored.amount) {
            Some(v) => v,
            None => return ,
        };
        self.accounts.insert(
            tx.client_id,
            Account { id: account.id, available: account.available, held, locked: true },
        );
        self.transactions.insert(
            tx.tx_id,
            StoredTransaction {
                client_id: stored.client_id,
                amount: stored.amount,
                dispute_status: DisputeStatus::ChargedBack,
            },
        );
    }

    /// Applies one record of any kind.
    pub fn apply(&mut self, tx: InputTransaction)
        requires
            old(self).wf(),
            tx.wf(),
        ensures
            final(self).wf(),
            final(self)@ == old(self)@.apply(tx),
    {
        match tx.transaction_type {
            TransactionType::Deposit => self.handle_deposit(tx),
            TransactionType::Withdrawal => self.handle_withdrawal(tx),
            TransactionType::Dispute => self.handle_dispute(tx),
            TransactionType::Resolve => self.handle_resolve(tx),
            TransactionType::Chargeback => self.handle_chargeback(tx),
        }
    }

    /// Applies the records in order.
    pub fn process_transactions(&mut self, txs: &Vec<InputTransaction>)
        requires
            old(self).wf(),
            forall|i: int| 0 <= i < txs@.len() ==> (#[trigger] txs@[i]).wf(),
        ensures
            final(self).wf(),
            final(self)@ == old(self)@.run(txs@),
    {
        let mut i: usize = 0;
        while i < txs.len()
            invariant
                0 <= i <= txs@.len(),
                self.wf(),
                self@ == old(self)@.run(txs@.subrange(0, i as int)),
                forall|j: int| 0 <= j < txs@.len() ==> (#[trigger] txs@[j]).wf(),
            decreases txs@.len() - i,
        {
            let ghost before = txs@.subrange(0, i as int);
            self.apply(txs[i]);
            assert(txs@.subrange(0, i + 1).drop_last() =~= before);
            i = i + 1;
        }
        assert(txs@.subrange(0, txs@.len() as int) =~= txs@);
    }
}

/// The allowed moves of a stored transaction's dispute status.
pub open spec fn dispute_edge(from: DisputeStatus, to: DisputeStatus) -> bool {
    ||| from == DisputeStatus::NotDisputed && to == DisputeStatus::Disputed
    ||| from == DisputeStatus::Disputed && to == DisputeStatus::Resolved
    ||| from == DisputeStatus::Disputed && to == DisputeStatus::ChargedBack
    ||| from == DisputeStatus::Resolved && to == DisputeStatus::Disputed
}

/// Whether a record is a deposit or a withdrawal, the kinds that store a
/// transaction.
pub open spec fn is_funds_record(r: InputTransaction) -> bool {
    r.transaction_type == TransactionType::Deposit || r.transaction_type
        == TransactionType::Withdrawal
}

/// A locked account stays exactly as it is, whatever record comes.
pub proof fn lemma_locked_account_unchanged(l: Ledger, r: InputTransaction, c: ClientId)
    requires
        l.accounts.contains_key(c),
        l.accounts[c].locked,
    ensures
        l.apply(r).accounts.contains_key(c),
        l.apply(r).accounts[c] == l.accounts[c],
{
    assert(account_or_new(l.accounts, c) == l.accounts[c]);
}

/// A locked account stays exactly as it is, whatever records follow.
pub proof fn lemma_locked_account_stays(l: Ledger, rs: Seq<InputTransaction>, c: ClientId)
    requires
        l.accounts.contains_key(c),
        l.accounts[c].locked,
    ensures
        l.run(rs).accounts.contains_key(c),
        l.run(rs).accounts[c] == l.accounts[c],
    decreases rs.len(),
{
    if rs.len() > 0 {
        lemma_locked_account_stays(l, rs.drop_last(), c);
        lemma_locked_account_unchanged(l.run(rs.drop_last()), rs.last(), c);
    }
}

/// A stored transaction's dispute status moves only along the edges
/// NotDisputed to Disputed, Disputed to Resolved, Disputed to ChargedBack and
/// Resolved to Disputed, or stays; a record that reuses the id for a new
/// deposit or withdrawal stores a new transaction instead.
pub proof fn lemma_dispute_status_moves_along_edges(
    l: Ledger,
    r: InputTransaction,
    t: TransactionId,
)
    requires
        l.txs.contains_key(t),
        !(is_funds_record(r) && r.tx_id == t),
    ensures
        l.apply(r).txs.contains_key(t),
        l.apply(r).txs[t].client_id == l.txs[t].client_id,
        l.apply(r).txs[t].amount == l.txs[t].amount,
        l.apply(r).txs[t].dispute_status == l.txs[t].dispute_status || dispute_edge(
            l.txs[t].dispute_status,
            l.apply(r).txs[t].dispute_status,
        ),
{
}

} // verus!
