//! The per-node transaction state machine.

use crate::registry::{
    lists_entries, registry_clone, registry_entries, registry_get, registry_insert, registry_items,
    registry_new,
};
use stateright::util::HashableHashMap;
use vstd::prelude::*;

verus! {

/// The state of a transaction is expressed as [`State`].
#[derive(Clone, Copy, Debug, PartialEq, Eq, Hash, Structural)]
pub enum State {
    /// The transaction has not started.
    Inactive,
    /// The transaction is running.
    Active,
    /// The transaction is prepared for commit.
    Prepared,
    /// The transaction is committed.
    Committed,
    /// The transaction is rolled back.
    RolledBack,
}

impl State {
    /// Whether the state is one that no protocol step leaves.
    pub open spec fn terminal(self) -> bool {
        self == State::Committed || self == State::RolledBack
    }

    /// Returns `true` if it is a terminal state.
    pub fn is_terminal(self) -> (terminal: bool)
        ensures
            terminal == self.terminal(),
    {
        matches!(self, State::Committed | State::RolledBack)
    }
}

/// What a transaction is, as a mathematical value: its state, and the registry
/// that maps each registered participant to its "prepared" flag.
pub struct TransactionView {
    /// How far the transaction has come.
    pub state: State,
    /// The registered participants, each with its "prepared" flag.
    pub participants: Map<usize, bool>,
}

impl TransactionView {
    /// A registry holds finitely many participants.
    pub open spec fn wf(self) -> bool {
        self.participants.dom().finite()
    }

    /// Whether `ids` names each registered participant exactly once.
    pub open spec fn enumerated_by(self, ids: Seq<usize>) -> bool {
        &&& ids.no_duplicates()
        &&& forall|node_id: usize| ids.contains(node_id) <==> self.registered(node_id)
    }

    /// A transaction that has not started and knows no participant.
    pub open spec fn initial() -> Self {
        TransactionView { state: State::Inactive, participants: Map::empty() }
    }

    /// Whether `node_id` is a registered participant.
    pub open spec fn registered(self, node_id: usize) -> bool {
        self.participants.dom().contains(node_id)
    }

    /// Whether `node_id` is registered and has reported that it is prepared.
    pub open spec fn reported(self, node_id: usize) -> bool {
        self.registered(node_id) && self.participants[node_id]
    }

    /// Whether there is a registered participant.
    pub open spec fn has_participants(self) -> bool {
        exists|node_id: usize| self.registered(node_id)
    }

    /// Whether no registered participant is still unprepared.
    pub open spec fn all_prepared(self) -> bool {
        forall|node_id: usize| self.registered(node_id) ==> self.reported(node_id)
    }

    /// Whether the registry holds all that `earlier` held: every participant
    /// registered then is registered now, and every one that had reported
    /// then still counts as prepared.
    pub open spec fn keeps_registry_of(self, earlier: Self) -> bool {
        &&& forall|node_id: usize| earlier.registered(node_id) ==> self.registered(node_id)
        &&& forall|node_id: usize| earlier.reported(node_id) ==> self.reported(node_id)
    }

    /// Inactive becomes Active; every other state stays.
    pub open spec fn start(self) -> Self {
        if self.state == State::Inactive {
            TransactionView { state: State::Active, ..self }
        } else {
            self
        }
    }

    /// A participant that is not yet registered enters the registry unprepared.
    pub open spec fn add_participant(self, node_id: usize) -> Self {
        if self.registered(node_id) {
            self
        } else {
            TransactionView { participants: self.participants.insert(node_id, false), ..self }
        }
    }

    /// Active becomes Prepared; every other state stays.
    pub open spec fn prepare(self) -> Self {
        if self.state == State::Active {
            TransactionView { state: State::Prepared, ..self }
        } else {
            self
        }
    }

    /// Whether a report from `node_id` changes the registry.
    pub open spec fn accepts_report(self, node_id: usize) -> bool {
        self.state == State::Prepared && self.registered(node_id) && !self.participants[node_id]
    }

    /// While Prepared, a registered participant's flag goes from false to true.
    pub open spec fn report_prepared(self, node_id: usize) -> Self {
        if self.accepts_report(node_id) {
            TransactionView { participants: self.participants.insert(node_id, true), ..self }
        } else {
            self
        }
    }

    /// Prepared becomes Committed; every other state stays.
    pub open spec fn commit(self) -> Self {
        if self.state == State::Prepared {
            TransactionView { state: State::Committed, ..self }
        } else {
            self
        }
    }

    /// A state that is not terminal becomes RolledBack; a terminal state stays.
    pub open spec fn rollback(self) -> Self {
        if self.state.terminal() {
            self
        } else {
            TransactionView { state: State::RolledBack, ..self }
        }
    }
}

/// [`Transaction`] represents a database transaction.
#[derive(Debug, PartialEq, Eq, Hash)]
pub struct Transaction {
    state: State,
    participants: HashableHashMap<usize, bool>,
}

impl View for Transaction {
    type V = TransactionView;

    closed spec fn view(&self) -> TransactionView {
        TransactionView { state: self.state, participants: registry_entries(self.participants) }
    }
}

impl Transaction {
    /// A registry holds finitely many participants.
    #[verifier::type_invariant]
    pub open spec fn finite_registry(self) -> bool {
        self@.wf()
    }

    /// Returns the state of the transaction.
    pub fn state(&self) -> (state: State)
        ensures
            state == self@.state,
    {
        self.state
    }

    /// Starts the transaction.
    ///
    /// Returns `true` if the transaction has started by the method call.
    pub fn start(&mut self) -> (started: bool)
        ensures
            final(self)@ == old(self)@.start(),
            started == (old(self)@.state == State::Inactive),
    {
        proof {
            use_type_invariant(&*self);
        }
        if self.state == State::Inactive {
            self.state = State::Active;
            true
        } else {
            false
        }
    }

    /// Adds a new participant to the transaction.
    ///
    /// Returns `true` if the participant was newly added to the transaction.
    /// A participant that is already registered keeps its flag.
    pub fn add_participant(&mut self, node_id: usize) -> (added: bool)
        ensures
            final(self)@ == old(self)@.add_participant(node_id),
            added == !old(self)@.registered(node_id),
            final(self)@.wf(),
            final(self)@.keeps_registry_of(old(self)@),
            old(self)@.participants.len() <= final(self)@.participants.len(),
    {
        proof {
            use_type_invariant(&*self);
        }
        if registry_get(&self.participants, node_id).is_some() {
            false
        } else {
            self.set_flag(node_id, false);
            true
        }
    }

    /// Sets the flag of `node_id`, registering it where it is not registered.
    ///
    /// The registry is taken out of the transaction while the map works on it,
    /// so that the transaction is whole at every point where that work could
    /// be cut short.
    fn set_flag(&mut self, node_id: usize, prepared: bool)
        ensures
            final(self).state == old(self).state,
            registry_entries(final(self).participants) == registry_entries(
                old(self).participants,
            ).insert(node_id, prepared),
    {
        proof {
            use_type_invariant(&*self);
        }
        let mut registry = registry_new();
        core::mem::swap(&mut self.participants, &mut registry);
        registry_insert(&mut registry, node_id, prepared);
        self.participants = registry;
    }

    /// Returns whether the participant `node_id` has reported that it is
    /// prepared, or `None` where no such participant is registered.
    pub fn participant_prepared(&self, node_id: usize) -> (prepared: Option<bool>)
        ensures
            prepared is Some <==> self@.registered(node_id),
            prepared == Some(true) <==> self@.reported(node_id),
    {
        match registry_get(&self.participants, node_id) {
            Some(prepared) => Some(*prepared),
            None => None,
        }
    }

    /// Returns the registered participant node ids, each once, in an order that
    /// is not specified.
    pub fn participants(&self) -> (ids: Vec<usize>)
        ensures
            self@.enumerated_by(ids@),
            self@.wf(),
    {
        proof {
            use_type_invariant(self);
        }
        let items = registry_items(&self.participants);
        let mut ids: Vec<usize> = Vec::new();
        let mut i: usize = 0;
        while i < items.len()
            invariant
                0 <= i <= items.len(),
                ids@.len() == i,
                forall|j: int| 0 <= j < i ==> ids@[j] == (#[trigger] items@[j]).0,
            decreases items.len() - i,
        {
            ids.push(items[i].0);
            i += 1;
        }
        proof {
            let entries = registry_entries(self.participants);
            assert(ids@.no_duplicates()) by {
                assert forall|a: int, b: int| 0 <= a < ids@.len() && 0 <= b < ids@.len() && a != b
                    implies ids@[a] != ids@[b] by {
                    if a < b {
                        assert(items@[a].0 != items@[b].0);
                    } else {
                        assert(items@[b].0 != items@[a].0);
                    }
                }
            }
            assert forall|node_id: usize| ids@.contains(node_id) <==> self@.registered(node_id) by {
                if ids@.contains(node_id) {
                    let j = choose|j: int| 0 <= j < ids@.len() && ids@[j] == node_id;
                    assert(entries.contains_pair(items@[j].0, items@[j].1));
                }
                if self@.registered(node_id) {
                    let j = choose|j: int| 0 <= j < items@.len() && (#[trigger] items@[j]).0 == node_id;
                    assert(ids@[j] == node_id);
                }
            }
        }
        ids
    }

    /// Executes the supplied closure on each participant node id, once for each,
    /// in the order in which [`Transaction::participants`] lists them.
    pub fn for_each_participant<F: FnMut(usize)>(&self, mut f: F)
        requires
            forall|node_id: usize| self@.registered(node_id) ==> call_requires(f, (node_id,)),
    {
        let ids = self.participants();
        let mut i: usize = 0;
        while i < ids.len()
            invariant
                0 <= i <= ids.len(),
                self@.enumerated_by(ids@),
                forall|node_id: usize| self@.registered(node_id) ==> call_requires(f, (node_id,)),
            decreases ids.len() - i,
        {
            assert(ids@.contains(ids@[i as int]));
            f(ids[i]);
            i += 1;
        }
    }

    /// Returns `true` if all the participants have prepared for commit, which
    /// includes the case that there is no participant.
    pub fn is_all_prepared(&self) -> (all: bool)
        ensures
            all == self@.all_prepared(),
            self@.wf(),
    {
        proof {
            use_type_invariant(self);
        }
        let items = registry_items(&self.participants);
        let ghost entries = registry_entries(self.participants);
        let mut i: usize = 0;
        while i < items.len()
            invariant
                0 <= i <= items.len(),
                self@.wf(),
                entries == self@.participants,
                lists_entries(items@, entries),
                forall|j: int| 0 <= j < i ==> (#[trigger] items@[j]).1,
            decreases items.len() - i,
        {
            if !items[i].1 {
                assert(!self@.reported(items@[i as int].0));
                return false;
            }
            i += 1;
        }
        true
    }

    /// Prepares the transaction for commit.
    ///
    /// Returns `true` if the transaction is prepared for commit by the method call.
    pub fn prepare(&mut self) -> (prepared: bool)
        ensures
            final(self)@ == old(self)@.prepare(),
            prepared == (old(self)@.state == State::Active),
    {
        proof {
            use_type_invariant(&*self);
        }
        if self.state == State::Active {
            self.state = State::Prepared;
            true
        } else {
            false
        }
    }

    /// Reports that the node has prepared the transaction for commit.
    ///
    /// Returns `true` if the participant is marked prepared by the method call.
    pub fn report_prepared(&mut self, node_id: usize) -> (changed: bool)
        ensures
            final(self)@ == old(self)@.report_prepared(node_id),
            changed == old(self)@.accepts_report(node_id),
            final(self)@.wf(),
            final(self)@.keeps_registry_of(old(self)@),
            old(self)@.participants.len() == final(self)@.participants.len(),
    {
        proof {
            use_type_invariant(&*self);
        }
        if self.state != State::Prepared {
            return false;
        }
        let unprepared = match registry_get(&self.participants, node_id) {
            Some(prepared) => !*prepared,
            None => false,
        };
        if unprepared {
            self.set_flag(node_id, true);
        }
        unprepared
    }

    /// Commits the transaction.
    ///
    /// Returns `true` if the transaction has been committed by the method call.
    pub fn commit(&mut self) -> (committed: bool)
        ensures
            final(self)@ == old(self)@.commit(),
            committed == (old(self)@.state == State::Prepared),
    {
        proof {
            use_type_invariant(&*self);
        }
        if self.state == State::Prepared {
            self.state = State::Committed;
            true
        } else {
            false
        }
    }

    /// Rolls back the transaction, unless it has already been committed or
    /// rolled back.
    ///
    /// Returns `true` if the transaction has been rolled back by the method call.
    pub fn rollback(&mut self) -> (rolled_back: bool)
        ensures
            final(self)@ == old(self)@.rollback(),
            rolled_back == !old(self)@.state.terminal(),
    {
        proof {
            use_type_invariant(&*self);
        }
        if self.state.is_terminal() {
            false
        } else {
            self.state = State::RolledBack;
            true
        }
    }
}

impl Default for Transaction {
    fn default() -> (transaction: Self)
        ensures
            transaction@ == TransactionView::initial(),
    {
        Transaction { state: State::Inactive, participants: registry_new() }
    }
}

impl Clone for Transaction {
    fn clone(&self) -> (copy: Self)
        ensures
            copy@ == self@,
            copy@.wf(),
    {
        proof {
            use_type_invariant(self);
        }
        Transaction { state: self.state, participants: registry_clone(&self.participants) }
    }
}

} // verus!
