//! What holds of every sequence of operations on one transaction.

use crate::transaction::{State, TransactionView};
use vstd::prelude::*;

verus! {

/// An operation that changes a transaction.
pub enum Operation {
    Start,
    AddParticipant(usize),
    Prepare,
    ReportPrepared(usize),
    Commit,
    Rollback,
}

/// How far a transaction has come: a state is never left for one of lower rank.
pub open spec fn rank(state: State) -> nat {
    match state {
        State::Inactive => 0,
        State::Active => 1,
        State::Prepared => 2,
        State::Committed => 3,
        State::RolledBack => 3,
    }
}

impl TransactionView {
    /// The transaction after one operation.
    pub open spec fn apply(self, operation: Operation) -> Self {
        match operation {
            Operation::Start => self.start(),
            Operation::AddParticipant(node_id) => self.add_participant(node_id),
            Operation::Prepare => self.prepare(),
            Operation::ReportPrepared(node_id) => self.report_prepared(node_id),
            Operation::Commit => self.commit(),
            Operation::Rollback => self.rollback(),
        }
    }

    /// The transaction after a sequence of operations, applied in order.
    pub open spec fn run(self, operations: Seq<Operation>) -> Self
        decreases operations.len(),
    {
        if operations.len() == 0 {
            self
        } else {
            self.run(operations.drop_last()).apply(operations.last())
        }
    }
}

/// Once a transaction is committed or rolled back, no sequence of operations
/// changes its state: a committed transaction is never rolled back, and a
/// rolled back one is never committed.
pub proof fn lemma_terminal_state_is_final(transaction: TransactionView, operations: Seq<Operation>)
    requires
        transaction.state.terminal(),
    ensures
        transaction.run(operations).state == transaction.state,
        transaction.state == State::Committed ==> transaction.run(operations).state
            != State::RolledBack,
        transaction.state == State::RolledBack ==> transaction.run(operations).state
            != State::Committed,
    decreases operations.len(),
{
    if operations.len() > 0 {
        lemma_terminal_state_is_final(transaction, operations.drop_last());
    }
}

/// No sequence of operations moves a transaction backward along
/// Inactive, Active, Prepared, and then Committed or RolledBack.
pub proof fn lemma_state_never_goes_back(transaction: TransactionView, operations: Seq<Operation>)
    ensures
        rank(transaction.state) <= rank(transaction.run(operations).state),
    decreases operations.len(),
{
    if operations.len() > 0 {
        lemma_state_never_goes_back(transaction, operations.drop_last());
    }
}

/// No sequence of operations removes a participant from the registry, makes
/// the registry smaller, or takes back that a participant is prepared.
pub proof fn lemma_registry_only_grows(transaction: TransactionView, operations: Seq<Operation>)
    requires
        transaction.wf(),
    ensures
        transaction.run(operations).wf(),
        transaction.run(operations).keeps_registry_of(transaction),
        transaction.participants.len() <= transaction.run(operations).participants.len(),
    decreases operations.len(),
{
    if operations.len() > 0 {
        lemma_registry_only_grows(transaction, operations.drop_last());
    }
}

/// Where at least one participant is registered, all are prepared if and only
/// if the registry is not empty and every flag in it is true.
pub proof fn lemma_all_prepared_means_every_flag(transaction: TransactionView)
    requires
        transaction.has_participants(),
    ensures
        transaction.all_prepared() <==> transaction.has_participants() && forall|node_id: usize|
            transaction.registered(node_id) ==> transaction.participants[node_id],
{
}

/// A transaction without participants counts as one in which all are prepared.
pub proof fn lemma_all_prepared_without_participants(transaction: TransactionView)
    requires
        !transaction.has_participants(),
    ensures
        transaction.all_prepared(),
{
}

} // verus!
