//! Client accounts and the rules for applying a transaction to one.

use crate::amount::{in_range, Amount};
use crate::transaction::{
    AmountChange, ChangeKind, ClientId, ClientTransaction, DisputeKind, Transaction,
    TransactionId,
};
use std::collections::{HashMap, HashSet};
use vstd::prelude::*;

verus! {

/// What an account is, abstractly: its balances in ten-thousandths, whether
/// it is frozen, the deposits and withdrawals it has recorded by id, and the
/// ids under an open dispute.
pub struct AccountState {
    pub available: int,
    pub held: int,
    pub frozen: bool,
    pub history: Map<TransactionId, AmountChange>,
    pub disputed: Set<TransactionId>,
}

impl AccountState {
    /// The state of an account that no transaction has touched yet.
    pub open spec fn empty() -> AccountState {
        AccountState {
            available: 0,
            held: 0,
            frozen: false,
            history: Map::empty(),
            disputed: Set::empty(),
        }
    }

    /// Whether `id` names a recorded deposit.
    pub open spec fn is_deposit(self, id: TransactionId) -> bool {
        self.history.contains_key(id) && self.history[id].kind == ChangeKind::Deposit
    }

    /// Whether the available, held and total balances all fit the amount
    /// type.
    pub open spec fn balances_fit(self) -> bool {
        &&& in_range(self.available)
        &&& in_range(self.held)
        &&& in_range(self.total())
    }

    /// Well-formedness: the balances fit the amount type, and every id under
    /// dispute names a recorded deposit.
    pub open spec fn wf(self) -> bool {
        &&& self.balances_fit()
        &&& forall|id: TransactionId| #[trigger]
            self.disputed.contains(id) ==> self.is_deposit(id)
    }

    /// The total balance: available and held funds together.
    pub open spec fn total(self) -> int {
        self.available + self.held
    }

    /// Whether applying `tx` succeeds, and if not, the error it fails with.
    pub open spec fn outcome(self, tx: Transaction) -> Result<(), TransactionError> {
        match tx {
            Transaction::Change { tx_id, change } => {
                if self.history.contains_key(tx_id) {
                    Err(TransactionError::DuplicateTransactionId(tx_id))
                } else {
                    match change.kind {
                        ChangeKind::Deposit => Ok(()),
                        ChangeKind::Withdrawal => {
                            if self.frozen {
                                Err(TransactionError::AccountFrozen)
                            } else if self.available >= change.amount.value() {
                                Ok(())
                            } else {
                                Err(
                                    TransactionError::InsufficientFunds {
                                        current: Amount(self.available as i64),
                                        requested: change.amount,
                                    },
                                )
                            }
                        },
                    }
                }
            },
            Transaction::Dispute { kind, tx_id } => match kind {
                DisputeKind::Initiate => {
                    if self.is_deposit(tx_id) && !self.disputed.contains(tx_id) {
                        Ok(())
                    } else {
                        Err(TransactionError::InvalidDispute)
                    }
                },
                DisputeKind::Resolve => {
                    if self.disputed.contains(tx_id) {
                        Ok(())
                    } else {
                        Err(TransactionError::UndisputedResolution)
                    }
                },
                DisputeKind::Chargeback => {
                    if self.disputed.contains(tx_id) {
                        Ok(())
                    } else {
                        Err(TransactionError::UndisputedChargeback)
                    }
                },
            },
        }
    }

    /// The state after applying `tx`: unchanged when `tx` fails.
    pub open spec fn after(self, tx: Transaction) -> AccountState {
        if self.outcome(tx) is Err {
            self
        } else {
            match tx {
                Transaction::Change { tx_id, change } => match change.kind {
                    ChangeKind::Deposit => AccountState {
                        available: self.available + change.amount.value(),
                        history: self.history.insert(tx_id, change),
                        ..self
                    },
                    ChangeKind::Withdrawal => AccountState {
                        available: self.available - change.amount.value(),
                        history: self.history.insert(tx_id, change),
                        ..self
                    },
                },
                Transaction::Dispute { kind, tx_id } => {
                    let amount = self.history[tx_id].amount.value();
                    match kind {
                        DisputeKind::Initiate => AccountState {
                            available: self.available - amount,
                            held: self.held + amount,
                            disputed: self.disputed.insert(tx_id),
                            ..self
                        },
                        DisputeKind::Resolve => AccountState {
                            available: self.available + amount,
                            held: self.held - amount,
                            disputed: self.disputed.remove(tx_id),
                            ..self
                        },
                        DisputeKind::Chargeback => AccountState {
                            held: self.held - amount,
                            frozen: true,
                            disputed: self.disputed.remove(tx_id),
                            history: self.history.remove(tx_id),
                            ..self
                        },
                    }
                },
            }
        }
    }

    /// Whether the balances after applying `tx` fit the amount type.
    pub open spec fn fits(self, tx: Transaction) -> bool {
        self.after(tx).balances_fit()
    }
}

/// An error that can occur when applying a transaction to an account.
#[derive(Clone, Copy, Debug, PartialEq, Eq, Structural)]
pub enum TransactionError {
    /// A withdrawal was attempted on a frozen account.
    AccountFrozen,
    /// A withdrawal asked for more than the available funds.
    InsufficientFunds { current: Amount, requested: Amount },
    /// A dispute named an id that is missing, not a deposit, or already
    /// disputed.
    InvalidDispute,
    /// A resolve named an id that is not under dispute.
    UndisputedResolution,
    /// A chargeback named an id that is not under dispute.
    UndisputedChargeback,
    /// A deposit or withdrawal reused a transaction id.
    DuplicateTransactionId(TransactionId),
}

/// A client's account.
#[derive(Debug)]
pub struct Account {
    balance: Amount,
    held: Amount,
    frozen: bool,
    history: HashMap<TransactionId, AmountChange>,
    disputed: HashSet<TransactionId>,
}

impl View for Account {
    type V = AccountState;

    closed spec fn view(&self) -> AccountState {
        AccountState {
            available: self.balance.value(),
            held: self.held.value(),
            frozen: self.frozen,
            history: self.history@,
            disputed: self.disputed@,
        }
    }
}

impl Default for Account {
    fn default() -> (r: Account)
        ensures
            r@ == AccountState::empty(),
    {
        Account {
            balance: Amount(0),
            held: Amount(0),
            frozen: false,
            history: HashMap::new(),
            disputed: HashSet::new(),
        }
    }
}

impl Account {
    /// Well-formedness of the account.
    pub open spec fn wf(&self) -> bool {
        self@.wf()
    }

    /// Get the account's currently accessible balance.
    pub fn balance(&self) -> (r: Amount)
        ensures
            r.value() == self@.available,
    {
        self.balance
    }

    /// Get the account's currently held balance.
    pub fn held(&self) -> (r: Amount)
        ensures
            r.value() == self@.held,
    {
        self.held
    }

    /// Check whether the account is frozen.
    pub fn is_frozen(&self) -> (r: bool)
        ensures
            r == self@.frozen,
    {
        self.frozen
    }

    /// Get the account's total balance.
    pub fn total(&self) -> (r: Amount)
        requires
            self.wf(),
        ensures
            r.value() == self@.total(),
    {
        self.balance + self.held
    }

    /// Whether the balances after applying `tx` fit the amount type, so that
    /// [`Account::transact`] may be called with it.
    pub fn fits(&self, tx: Transaction) -> (r: bool)
        requires
            self.wf(),
        ensures
            r == self@.fits(tx),
    {
        let available = self.balance.0 as i128;
        let held = self.held.0 as i128;
        let (available, held) = match tx {
            Transaction::Change { tx_id, change } => {
                if self.history.contains_key(&tx_id) {
                    return true;
                }
                let amount = change.amount.0 as i128;
                match change.kind {
                    ChangeKind::Deposit => (available + amount, held),
                    ChangeKind::Withdrawal => {
                        if self.frozen || available < amount {
                            return true;
                        }
                        (available - amount, held)
                    },
                }
            },
            Transaction::Dispute { kind, tx_id } => {
                let amount = match self.history.get(&tx_id) {
                    Some(change) => change.amount.0 as i128,
                    None => 0,
                };
                let disputed = self.disputed.contains(&tx_id);
                match kind {
                    DisputeKind::Initiate => {
                        let deposit = match self.history.get(&tx_id) {
                            Some(change) => change.kind == ChangeKind::Deposit,
                            None => false,
                        };
                        if disputed || !deposit {
                            return true;
                        }
                        (available - amount, held + amount)
                    },
                    DisputeKind::Resolve => {
                        if !disputed {
                            return true;
                        }
                        (available + amount, held - amount)
                    },
                    DisputeKind::Chargeback => {
                        if !disputed {
                            return true;
                        }
                        (available, held - amount)
                    },
                }
            },
        };
        i64::MIN as i128 <= available && available <= i64::MAX as i128
            && i64::MIN as i128 <= held && held <= i64::MAX as i128
            && i64::MIN as i128 <= available + held && available + held <= i64::MAX as i128
    }

    /// Execute a transaction on the account. A transaction that fails leaves
    /// the account unchanged.
    pub fn transact(&mut self, tx: Transaction) -> (r: Result<(), TransactionError>)
        requires
            old(self).wf(),
            old(self)@.fits(tx),
        ensures
            final(self).wf(),
            r == old(self)@.outcome(tx),
            final(self)@ == old(self)@.after(tx),
    {
        match tx {
            Transaction::Change { tx_id, change } => {
                if self.history.contains_key(&tx_id) {
                    return Err(TransactionError::DuplicateTransactionId(tx_id));
                }
                match change.kind {
                    ChangeKind::Deposit => {
                        self.balance = self.balance + change.amount;
                        self.history.insert(tx_id, change);
                    },
                    ChangeKind::Withdrawal => {
                        // Prevent frozen accounts from being withdrawn from
                        if self.frozen {
                            return Err(TransactionError::AccountFrozen);
                        }
                        // Ensure the funds are available
                        if self.balance >= change.amount {
                            self.balance = self.balance - change.amount;
                            self.history.insert(tx_id, change);
                        } else {
                            return Err(
                                TransactionError::InsufficientFunds {
                                    current: self.balance,
                                    requested: change.amount,
                                },
                            );
                        }
                    },
                }
            },
            Transaction::Dispute { kind, tx_id } => match kind {
                DisputeKind::Initiate => {
                    // When initiating a dispute, put disputed funds into holding
                    if self.disputed.contains(&tx_id) {
                        return Err(TransactionError::InvalidDispute);
                    }
                    match self.history.get(&tx_id) {
                        Some(AmountChange { kind: ChangeKind::Deposit, amount }) => {
                            let amount = *amount;
                            self.balance = self.balance - amount;
                            self.held = self.held + amount;
                            self.disputed.insert(tx_id);
                        },
                        _ => {
                            return Err(TransactionError::InvalidDispute);
                        },
                    }
                },
                DisputeKind::Resolve => {
                    // When resolving a disputed deposit, make the held funds available again
                    if !self.disputed.remove(&tx_id) {
                        assert(self.disputed@ =~= old(self).disputed@);
                        return Err(TransactionError::UndisputedResolution);
                    }
                    if let Some(change) = self.history.get(&tx_id) {
                        let amount = change.amount;
                        self.balance = self.balance + amount;
                        self.held = self.held - amount;
                    }
                },
                DisputeKind::Chargeback => {
                    // When charging back a disputed deposit, remove the held funds and freeze the account
                    if !self.disputed.remove(&tx_id) {
                        assert(self.disputed@ =~= old(self).disputed@);
                        return Err(TransactionError::UndisputedChargeback);
                    }
                    if let Some(change) = self.history.get(&tx_id) {
                        let amount = change.amount;
                        self.held = self.held - amount;
                        self.frozen = true;
                        self.history.remove(&tx_id);
                    }
                },
            },
        }
        Ok(())
    }
}

/// A collection of client [`Account`]s, indexed by client id.
#[derive(Debug)]
pub struct Accounts {
    accounts: HashMap<ClientId, Account>,
}

impl View for Accounts {
    type V = Map<ClientId, AccountState>;

    closed spec fn view(&self) -> Map<ClientId, AccountState> {
        self.accounts@.map_values(|a: Account| a@)
    }
}

/// The state of `client`'s account in `m`, or that of a new account where
/// `m` has none.
pub open spec fn account_or_new(m: Map<ClientId, AccountState>, client: ClientId) -> AccountState {
    if m.contains_key(client) {
        m[client]
    } else {
        AccountState::empty()
    }
}

impl Default for Accounts {
    fn default() -> (r: Accounts)
        ensures
            r@ == Map::<ClientId, AccountState>::empty(),
            r.wf(),
    {
        Accounts { accounts: HashMap::new() }
    }
}

impl Accounts {
    /// Well-formedness: every account in the collection is well formed.
    pub open spec fn wf(&self) -> bool {
        forall|c: ClientId| #[trigger] self@.contains_key(c) ==> self@[c].wf()
    }

    /// Execute a transaction on the account of its client, creating that
    /// account first if there is none yet.
    pub fn transact(&mut self, client_tx: ClientTransaction) -> (r: Result<(), TransactionError>)
        requires
            old(self).wf(),
            account_or_new(old(self)@, client_tx.client).fits(client_tx.tx),
        ensures
            final(self).wf(),
            r == account_or_new(old(self)@, client_tx.client).outcome(client_tx.tx),
            final(self)@ == old(self)@.insert(
                client_tx.client,
                account_or_new(old(self)@, client_tx.client).after(client_tx.tx),
            ),
    {
        let client = client_tx.client;
        let mut account = match self.accounts.remove(&client) {
            Some(account) => account,
            None => Account::default(),
        };
        let r = account.transact(client_tx.tx);
        self.accounts.insert(client, account);
        assert(self@ =~= old(self)@.insert(client, account@));
        r
    }

    /// Whether the balances of the client's account after applying the
    /// transaction fit the amount type, so that [`Accounts::transact`] may be
    /// called with it.
    pub fn fits(&self, client_tx: ClientTransaction) -> (r: bool)
        requires
            self.wf(),
        ensures
            r == account_or_new(self@, client_tx.client).fits(client_tx.tx),
    {
        match self.accounts.get(&client_tx.client) {
            Some(account) => {
                assert(self@.contains_key(client_tx.client));
                account.fits(client_tx.tx)
            },
            None => Account::default().fits(client_tx.tx),
        }
    }

    /// Get the account associated with the given client id.
    pub fn get(&self, client_id: ClientId) -> (r: Option<&Account>)
        ensures
            match r {
                Some(account) => self@.contains_key(client_id) && account@ == self@[client_id],
                None => !self@.contains_key(client_id),
            },
    {
        self.accounts.get(&client_id)
    }

    /// All accounts with their client ids, each client once, in no
    /// particular order.
    pub fn iter(&self) -> (r: Vec<(ClientId, &Account)>)
        ensures
            r@.len() == self@.dom().len(),
            forall|i: int|
                0 <= i < r@.len() ==> {
                    &&& self@.contains_key(#[trigger] r@[i].0)
                    &&& r@[i].1@ == self@[r@[i].0]
                },
            forall|c: ClientId| #[trigger]
                self@.contains_key(c) ==> exists|i: int| 0 <= i < r@.len() && r@[i].0 == c,
    {
        let mut r: Vec<(ClientId, &Account)> = Vec::new();
        for (id, account) in it: self.accounts.iter()
            invariant
                r@.len() == it.index(),
                forall|i: int|
                    0 <= i < r@.len() ==> r@[i].0 == *it.seq()[i].0 && r@[i].1 == it.seq()[i].1,
        {
            r.push((*id, account));
        }
        assert(self@.dom() =~= self.accounts@.dom());
        r
    }
}

} // verus!
