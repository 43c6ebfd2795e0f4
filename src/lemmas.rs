//! Laws of the account state machine, proved over its abstract model.

use crate::account::{AccountState, TransactionError};
use crate::amount::in_range;
use crate::transaction::{AmountChange, ChangeKind, DisputeKind, Transaction, TransactionId};
use vstd::prelude::*;

verus! {

/// The state reached from `s` by applying each transaction of `txs` in turn.
pub open spec fn replay(s: AccountState, txs: Seq<Transaction>) -> AccountState
    decreases txs.len(),
{
    if txs.len() == 0 {
        s
    } else {
        replay(s.after(txs[0]), txs.drop_first())
    }
}

/// Whether every transaction of `txs` is a deposit or a withdrawal, no two
/// share an id, and none reuses an id recorded in `s`.
pub open spec fn fresh_changes(s: AccountState, txs: Seq<Transaction>) -> bool {
    &&& forall|i: int| 0 <= i < txs.len() ==> #[trigger] txs[i] is Change
    &&& forall|i: int, j: int|
        0 <= i < j < txs.len() ==> #[trigger] txs[i]->Change_tx_id != #[trigger] txs[j]->Change_tx_id
    &&& forall|i: int|
        0 <= i < txs.len() ==> !s.history.contains_key(#[trigger] txs[i]->Change_tx_id)
}

/// The sum of the amounts of the deposits in `txs`.
pub open spec fn deposited(txs: Seq<Transaction>) -> int
    decreases txs.len(),
{
    if txs.len() == 0 {
        0
    } else {
        let rest = deposited(txs.drop_first());
        match txs[0] {
            Transaction::Change { change, .. } if change.kind == ChangeKind::Deposit =>
                change.amount.value() + rest,
            _ => rest,
        }
    }
}

/// The sum of the amounts of the withdrawals in `txs` that succeed when
/// `txs` is replayed from `s`.
pub open spec fn withdrawn(s: AccountState, txs: Seq<Transaction>) -> int
    decreases txs.len(),
{
    if txs.len() == 0 {
        0
    } else {
        let rest = withdrawn(s.after(txs[0]), txs.drop_first());
        match txs[0] {
            Transaction::Change { change, .. } if change.kind == ChangeKind::Withdrawal
                && s.outcome(txs[0]) is Ok => change.amount.value() + rest,
            _ => rest,
        }
    }
}

/// Replaying deposits and withdrawals with fresh, distinct ids changes the
/// total by the sum of the deposits minus the sum of the withdrawals that
/// succeeded; a withdrawal that fails counts for nothing.
pub proof fn lemma_replay_changes_total(s: AccountState, txs: Seq<Transaction>)
    requires
        fresh_changes(s, txs),
    ensures
        replay(s, txs).total() == s.total() + deposited(txs) - withdrawn(s, txs),
    decreases txs.len(),
{
    if txs.len() > 0 {
        let next = s.after(txs[0]);
        let rest = txs.drop_first();
        assert(txs[0] is Change);
        assert forall|i: int| 0 <= i < rest.len() implies !next.history.contains_key(
            #[trigger] rest[i]->Change_tx_id,
        ) by {
            assert(rest[i] == txs[i + 1]);
            assert(txs[0]->Change_tx_id != txs[i + 1]->Change_tx_id);
        }
        assert forall|i: int, j: int| 0 <= i < j < rest.len() implies #[trigger] rest[i]->Change_tx_id
            != #[trigger] rest[j]->Change_tx_id by {
            assert(rest[i] == txs[i + 1] && rest[j] == txs[j + 1]);
        }
        assert forall|i: int| 0 <= i < rest.len() implies #[trigger] rest[i] is Change by {
            assert(rest[i] == txs[i + 1]);
        }
        lemma_replay_changes_total(next, rest);
    }
}

/// A dispute on a deposit that is not yet disputed, followed by the
/// resolution of that dispute, both succeed and leave the account exactly as
/// it was: balances, frozen flag, history and open disputes.
pub proof fn lemma_dispute_then_resolve(s: AccountState, id: TransactionId)
    requires
        s.wf(),
        s.is_deposit(id),
        !s.disputed.contains(id),
    ensures
        ({
            let open = Transaction::Dispute { kind: DisputeKind::Initiate, tx_id: id };
            let close = Transaction::Dispute { kind: DisputeKind::Resolve, tx_id: id };
            &&& s.outcome(open) is Ok
            &&& s.after(open).outcome(close) is Ok
            &&& s.after(open).after(close) == s
        }),
{
    let open = Transaction::Dispute { kind: DisputeKind::Initiate, tx_id: id };
    let close = Transaction::Dispute { kind: DisputeKind::Resolve, tx_id: id };
    assert(s.after(open).after(close).disputed =~= s.disputed);
}

/// A dispute on a deposit that is not yet disputed, followed by a chargeback,
/// both succeed; the chargeback freezes the account and takes the deposit's
/// amount out of the held funds, and afterwards neither a second chargeback
/// nor a new dispute on that id succeeds. When the dispute's balances fit the
/// amount type, the chargeback's fit exactly when the total less the
/// deposit's amount does.
pub proof fn lemma_dispute_then_chargeback(s: AccountState, id: TransactionId)
    requires
        s.wf(),
        s.is_deposit(id),
        !s.disputed.contains(id),
    ensures
        ({
            let open = Transaction::Dispute { kind: DisputeKind::Initiate, tx_id: id };
            let charge = Transaction::Dispute { kind: DisputeKind::Chargeback, tx_id: id };
            let disputed = s.after(open);
            let charged = disputed.after(charge);
            &&& s.outcome(open) is Ok
            &&& disputed.outcome(charge) is Ok
            &&& charged.frozen
            &&& charged.held == disputed.held - s.history[id].amount.value()
            &&& charged.available == disputed.available
            &&& charged.outcome(charge) == Err::<(), TransactionError>(
                TransactionError::UndisputedChargeback,
            )
            &&& charged.outcome(open) == Err::<(), TransactionError>(
                TransactionError::InvalidDispute,
            )
            &&& !charged.history.contains_key(id)
            &&& charged.disputed == s.disputed
            &&& (s.fits(open) ==> (disputed.fits(charge) <==> in_range(
                s.total() - s.history[id].amount.value(),
            )))
        }),
{
}

/// A withdrawal under an unused id on a frozen account fails with
/// `AccountFrozen` and changes nothing.
pub proof fn lemma_frozen_rejects_withdrawal(
    s: AccountState,
    id: TransactionId,
    change: AmountChange,
)
    requires
        s.frozen,
        change.kind == ChangeKind::Withdrawal,
        !s.history.contains_key(id),
    ensures
        ({
            let tx = Transaction::Change { tx_id: id, change };
            &&& s.outcome(tx) == Err::<(), TransactionError>(TransactionError::AccountFrozen)
            &&& s.after(tx) == s
        }),
{
}

/// Once a deposit or withdrawal has succeeded, a second deposit or
/// withdrawal under the same id fails with `DuplicateTransactionId` and
/// changes nothing.
pub proof fn lemma_reused_id_rejected(
    s: AccountState,
    id: TransactionId,
    first: AmountChange,
    second: AmountChange,
)
    requires
        s.outcome(Transaction::Change { tx_id: id, change: first }) is Ok,
    ensures
        ({
            let t = s.after(Transaction::Change { tx_id: id, change: first });
            let tx = Transaction::Change { tx_id: id, change: second };
            &&& t.outcome(tx) == Err::<(), TransactionError>(
                TransactionError::DuplicateTransactionId(id),
            )
            &&& t.after(tx) == t
        }),
{
}

} // verus!
