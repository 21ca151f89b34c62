//! The multi-node system model.
//!
//! # The Algorithm
//!
//! ## Voting
//!
//! The voting phase involves the transaction coordinator sending a prepare message to all the
//! transaction participants.
//!
//! ## Commit
//!
//! If the coordinator received an agreement message from all of them, the coordinator sends a
//! commit message to the participants.
//!
//! ## Rollback
//!
//! If the coordinator fails to receive an agreement message from all of them, the coordinator sends
//! a rollback message to all the participants.
//!
//! Message delivery is modelled as a local transition: an action names the node that a message
//! concerns, and applying it updates exactly one node of the configuration.

use crate::enabling::{
    enabled, lemma_concat_contains, lemma_system_lists_the_enabled, lists_participants,
    node_actions, system_actions, to_each,
};
use crate::safety::{
    acid, agreed, can_still_vote, commit_in_reach, commit_is_followed, disruptive, engaged,
    follows_commit,
};
use crate::traces::well_formed;
use crate::transaction::{State, Transaction, TransactionView};
use vstd::prelude::*;

verus! {

/// A step that the system can take.
#[derive(Clone, Copy, Debug, PartialEq, Eq, Hash, Structural)]
pub enum Action {
    /// Starts the transaction on the specified node.
    Start(usize),
    /// Makes a request of the coordinator node that the node wants to participate in the
    /// distributed transaction.
    RequestJoin(usize),
    /// Acknowledges the `RequestJoin` request.
    AckJoin(usize),
    /// Requests the participant node to prepare the transaction.
    RequestPrepare(usize),
    /// The participant node has prepared the transaction for commit.
    AckPrepare(usize),
    /// The participant node failed to prepare the transaction for commit.
    AckPrepareFail,
    /// Commits the transaction.
    Commit(usize),
    /// Rolls back the transaction.
    Rollback(usize),
    /// Crashes the node.
    Crash(usize),
}

/// What a node is, as a mathematical value.
pub struct NodeView {
    /// The only transaction on the node.
    pub transaction: TransactionView,
    /// What the node has written to its persistent storage.
    pub log: Seq<Action>,
}

impl NodeView {
    /// A node whose transaction has not started, with nothing logged.
    pub open spec fn initial() -> Self {
        NodeView { transaction: TransactionView::initial(), log: Seq::empty() }
    }

    /// The node's transaction state.
    pub open spec fn state(self) -> State {
        self.transaction.state
    }

    /// The node with its transaction replaced.
    pub open spec fn with(self, transaction: TransactionView) -> Self {
        NodeView { transaction, ..self }
    }
}

/// What a configuration is, as a mathematical value: the nodes by node id.
pub type SystemView = Seq<NodeView>;

/// The configuration of `num_nodes` nodes in which nothing has happened yet.
pub open spec fn initial_system(num_nodes: nat) -> SystemView {
    Seq::new(num_nodes, |node_id: int| NodeView::initial())
}

/// The id of the node that an action updates: the node that the action names,
/// or the coordinator for what a participant sends to it.
pub open spec fn target(action: Action) -> usize {
    match action {
        Action::Start(node_id) => node_id,
        Action::RequestJoin(_) => 0,
        Action::AckJoin(node_id) => node_id,
        Action::RequestPrepare(node_id) => node_id,
        Action::AckPrepare(_) => 0,
        Action::AckPrepareFail => 0,
        Action::Commit(node_id) => node_id,
        Action::Rollback(node_id) => node_id,
        Action::Crash(node_id) => node_id,
    }
}

/// What an action makes of the node that it updates.
pub open spec fn effect(node: NodeView, action: Action) -> NodeView {
    match action {
        Action::Start(_) => node.with(node.transaction.start()),
        Action::RequestJoin(participant) => node.with(
            node.transaction.start().add_participant(participant),
        ),
        Action::AckJoin(_) => node.with(node.transaction.start()),
        Action::RequestPrepare(_) => node.with(node.transaction.prepare()),
        Action::AckPrepare(participant) => node.with(node.transaction.report_prepared(participant)),
        Action::AckPrepareFail => node.with(node.transaction.rollback()),
        Action::Commit(_) => node.with(node.transaction.commit()),
        Action::Rollback(_) => node.with(node.transaction.rollback()),
        Action::Crash(_) => NodeView::initial(),
    }
}

/// Whether an action can be applied to a configuration: the node that it
/// updates exists, and a `Start` finds that node inactive.
pub open spec fn applicable(system: SystemView, action: Action) -> bool {
    &&& target(action) < system.len()
    &&& action is Start ==> system[target(action) as int].state() == State::Inactive
}

/// The transition function: the successor of a configuration under an action,
/// or `None` where the action cannot be applied.
pub open spec fn step(system: SystemView, action: Action) -> Option<SystemView> {
    if applicable(system, action) {
        Some(system.update(target(action) as int, effect(system[target(action) as int], action)))
    } else {
        None
    }
}

/// The configuration after a sequence of actions, applied in order, or `None`
/// where one of them cannot be applied.
pub open spec fn run(system: SystemView, trace: Seq<Action>) -> Option<SystemView>
    decreases trace.len(),
{
    if trace.len() == 0 {
        Some(system)
    } else {
        match run(system, trace.drop_last()) {
            Some(before) => step(before, trace.last()),
            None => None,
        }
    }
}

/// A node: the coordinator of the distributed transaction, or a participant.
#[derive(Debug, PartialEq, Eq, Hash)]
pub struct Node {
    /// The only transaction on the node.
    transaction: Transaction,
    /// The persistent storage of the node. Nothing is written to it yet.
    persistency: Vec<Action>,
}

impl View for Node {
    type V = NodeView;

    closed spec fn view(&self) -> NodeView {
        NodeView { transaction: self.transaction@, log: self.persistency@ }
    }
}

impl Node {
    /// The only transaction on the node.
    pub fn transaction(&self) -> (transaction: &Transaction)
        ensures
            transaction@ == self@.transaction,
            self@.transaction.wf(),
    {
        proof {
            use_type_invariant(&self.transaction);
        }
        &self.transaction
    }

    /// The persistent storage of the node.
    pub fn persistency(&self) -> (log: &Vec<Action>)
        ensures
            log@ == self@.log,
    {
        &self.persistency
    }
}

impl Default for Node {
    fn default() -> (node: Self)
        ensures
            node@ == NodeView::initial(),
    {
        Node { transaction: Transaction::default(), persistency: Vec::new() }
    }
}

impl Clone for Node {
    fn clone(&self) -> (copy: Self)
        ensures
            copy@ == self@,
            copy@.transaction.wf(),
    {
        Node { transaction: self.transaction.clone(), persistency: self.persistency.clone() }
    }
}

/// A configuration: one [`Node`] per node id, the coordinator first.
#[derive(Debug, PartialEq, Eq, Hash)]
pub struct System {
    node_map: Vec<Node>,
}

impl View for System {
    type V = SystemView;

    closed spec fn view(&self) -> SystemView {
        self.node_map@.map_values(|node: Node| node@)
    }
}

impl System {
    /// Every registry of a configuration holds finitely many participants.
    #[verifier::type_invariant]
    spec fn finite_registries(self) -> bool {
        forall|node_id: int|
            0 <= node_id < self.node_map@.len() ==> (#[trigger] self.node_map@[node_id])@.transaction.wf()
    }

    /// The number of nodes.
    pub fn len(&self) -> (len: usize)
        ensures
            len == self@.len(),
            well_formed(self@),
    {
        proof {
            use_type_invariant(self);
        }
        self.node_map.len()
    }

    /// The node with the given id, if there is one.
    pub fn node(&self, node_id: usize) -> (node: Option<&Node>)
        ensures
            node is Some <==> node_id < self@.len(),
            node matches Some(found) ==> found@ == self@[node_id as int],
    {
        if node_id < self.node_map.len() {
            Some(&self.node_map[node_id])
        } else {
            None
        }
    }
}

impl Clone for System {
    fn clone(&self) -> (copy: Self)
        ensures
            copy@ == self@,
    {
        proof {
            use_type_invariant(self);
        }
        System { node_map: self.node_map.clone() }
    }
}

/// What the coordinator addresses to each registered participant.
#[derive(Clone, Copy)]
enum Notice {
    AckJoin,
    RequestPrepare,
    Commit,
    Rollback,
}

impl Notice {
    /// The action that delivers the notice to the participant `node_id`.
    spec fn to(self, node_id: usize) -> Action {
        match self {
            Notice::AckJoin => Action::AckJoin(node_id),
            Notice::RequestPrepare => Action::RequestPrepare(node_id),
            Notice::Commit => Action::Commit(node_id),
            Notice::Rollback => Action::Rollback(node_id),
        }
    }

    /// The action that delivers the notice to the participant `node_id`.
    fn addressed_to(self, node_id: usize) -> (action: Action)
        ensures
            action == self.to(node_id),
    {
        match self {
            Notice::AckJoin => Action::AckJoin(node_id),
            Notice::RequestPrepare => Action::RequestPrepare(node_id),
            Notice::Commit => Action::Commit(node_id),
            Notice::Rollback => Action::Rollback(node_id),
        }
    }

    /// Lists the notice once for each of `participants`, in their order.
    fn list_for_each(self, participants: &Vec<usize>, actions: &mut Vec<Action>)
        ensures
            final(actions)@ == old(actions)@ + to_each(participants@, |id: usize| self.to(id)),
    {
        let mut i: usize = 0;
        while i < participants.len()
            invariant
                0 <= i <= participants.len(),
                actions@ == old(actions)@ + to_each(
                    participants@.take(i as int),
                    |id: usize| self.to(id),
                ),
            decreases participants.len() - i,
        {
            actions.push(self.addressed_to(participants[i]));
            i += 1;
        }
    }
}

/// A property that is expected to hold in every configuration that the system
/// can reach.
#[derive(Clone, Copy, Debug, PartialEq, Eq, Hash, Structural)]
pub enum SafetyProperty {
    /// If a transaction on a node has decided to commit or roll back, all the
    /// participant transactions agree on the decision.
    Acid,
}

impl SafetyProperty {
    /// What the property says of a configuration.
    pub open spec fn holds_in(self, system: SystemView) -> bool {
        match self {
            SafetyProperty::Acid => acid(system),
        }
    }

    /// The name under which the property is reported.
    pub fn name(&self) -> (name: &'static str)
        ensures
            name@ == "ACID"@,
    {
        match self {
            SafetyProperty::Acid => "ACID",
        }
    }

    /// Evaluates the property on a configuration.
    pub fn holds(&self, state: &System) -> (holds: bool)
        ensures
            holds == self.holds_in(state@),
    {
        match self {
            SafetyProperty::Acid => Self::nodes_agree(state) && Self::commit_is_followed(state),
        }
    }

    /// Whether the nodes that have decided have decided alike.
    fn nodes_agree(state: &System) -> (unanimous: bool)
        ensures
            unanimous == agreed(state@),
    {
        let mut commit_decided: Option<bool> = None;
        let ghost mut first: int = 0;
        let mut node_id: usize = 0;
        while node_id < state.node_map.len()
            invariant
                0 <= node_id <= state@.len(),
                state@.len() == state.node_map@.len(),
                commit_decided is None ==> forall|i: int|
                    0 <= i < node_id ==> !(#[trigger] state@[i]).state().terminal(),
                commit_decided matches Some(commit) ==> {
                    &&& 0 <= first < node_id
                    &&& state@[first].state() == (if commit {
                        State::Committed
                    } else {
                        State::RolledBack
                    })
                    &&& forall|i: int|
                        0 <= i < node_id && (#[trigger] state@[i]).state().terminal()
                            ==> state@[i].state() == state@[first].state()
                },
            decreases state@.len() - node_id,
        {
            let final_state = match state.node_map[node_id].transaction.state() {
                State::Committed => Some(true),
                State::RolledBack => Some(false),
                _ => None,
            };
            match (final_state, commit_decided) {
                (None, _) => {},
                (Some(_), None) => {
                    commit_decided = final_state;
                    proof {
                        first = node_id as int;
                    }
                },
                (Some(final_state), Some(other_state)) => {
                    // If they do not match, it is a consistency error.
                    if final_state != other_state {
                        assert(state@[node_id as int].state() != state@[first].state());
                        return false;
                    }
                },
            }
            node_id += 1;
        }
        true
    }

    /// Whether, where the coordinator has committed, every participant that it
    /// has registered is a node that is prepared or has committed.
    fn commit_is_followed(state: &System) -> (followed: bool)
        ensures
            followed == commit_is_followed(state@),
    {
        if state.node_map.len() == 0 {
            return true;
        }
        let coordinator = &state.node_map[TransactionModel::coordinator_node_id()].transaction;
        if coordinator.state() != State::Committed {
            return true;
        }
        let participants = coordinator.participants();
        let mut i: usize = 0;
        while i < participants.len()
            invariant
                0 <= i <= participants.len(),
                state@.len() == state.node_map@.len(),
                state@.len() > 0,
                state@[0].state() == State::Committed,
                state@[0].transaction.enumerated_by(participants@),
                forall|k: int| 0 <= k < i ==> follows_commit(state@, #[trigger] participants@[k]),
            decreases participants.len() - i,
        {
            let participant_node_id = participants[i];
            if participant_node_id >= state.node_map.len() {
                assert(!follows_commit(state@, participant_node_id));
                return false;
            }
            let participant_state = state.node_map[participant_node_id].transaction.state();
            if participant_state != State::Prepared && participant_state != State::Committed {
                assert(!follows_commit(state@, participant_node_id));
                return false;
            }
            i += 1;
        }
        true
    }
}

/// [`TransactionModel`] implements state transitions.
#[derive(Hash)]
pub struct TransactionModel {
    /// The number of nodes.
    num_nodes: usize,
}

impl TransactionModel {
    /// The number of nodes that the model was created for.
    pub closed spec fn nodes(self) -> nat {
        self.num_nodes as nat
    }

    /// Creates a new [`TransactionModel`].
    pub fn new(num_nodes: usize) -> (model: TransactionModel)
        ensures
            model.nodes() == num_nodes,
    {
        TransactionModel { num_nodes }
    }

    /// Determines if the node is the fixed transaction coordinator or not.
    pub fn is_coordinator(node_id: usize) -> (coordinator: bool)
        ensures
            coordinator == (node_id == 0),
    {
        node_id == 0
    }

    /// Returns the fixed coordinator node ID.
    pub fn coordinator_node_id() -> (node_id: usize)
        ensures
            node_id == 0,
    {
        0
    }

    /// The initial configurations: the single one in which every node is
    /// inactive and knows no participant.
    pub fn init_states(&self) -> (states: Vec<System>)
        ensures
            states@.len() == 1,
            states@[0]@ == initial_system(self.nodes()),
            well_formed(states@[0]@),
    {
        let mut node_map: Vec<Node> = Vec::new();
        let mut node_id: usize = 0;
        while node_id < self.num_nodes
            invariant
                0 <= node_id <= self.num_nodes,
                node_map@.len() == node_id,
                forall|i: int| 0 <= i < node_id ==> (#[trigger] node_map@[i])@ == NodeView::initial(),
            decreases self.num_nodes - node_id,
        {
            node_map.push(Node::default());
            node_id += 1;
        }
        let system = System { node_map };
        proof {
            use_type_invariant(&system);
        }
        vec![system]
    }

    /// Lists the actions that the node `node_id` offers. What the coordinator
    /// addresses to each registered participant is listed in the order of
    /// `participants`, which is not read for any other node.
    pub fn add_actions_per_node(
        node_id: usize,
        node: &Node,
        participants: &Vec<usize>,
        actions: &mut Vec<Action>,
    )
        ensures
            final(actions)@ == old(actions)@ + node_actions(node_id, node@, participants@),
    {
        match node.transaction.state() {
            State::Inactive => {
                if Self::is_coordinator(node_id) {
                    // If the transaction is inactive, has the node start the transaction.
                    actions.push(Action::Start(node_id));
                } else {
                    // Send a request to the coordinator to participate in the distributed
                    // transaction.
                    actions.push(Action::RequestJoin(node_id));
                }
            },
            State::Active => {
                if Self::is_coordinator(node_id) {
                    // Repeatedly send `AckJoin` to all the participants.
                    Notice::AckJoin.list_for_each(participants, actions);
                    // The coordinator transaction decides when to start committing the
                    // transaction.
                    actions.push(Action::RequestPrepare(node_id));
                }
                // A transaction can be rolled back any time.
                actions.push(Action::Rollback(node_id));
            },
            State::Prepared => {
                if Self::is_coordinator(node_id) {
                    if node.transaction.is_all_prepared() {
                        // This model emulates the coordinator voting against the unanimous
                        // decision of the participants as sending `Rollback` to all the
                        // participants.
                        actions.push(Action::Commit(Self::coordinator_node_id()));
                        actions.push(Action::Rollback(Self::coordinator_node_id()));
                    } else {
                        // Send `RequestPrepare` repeatedly until it gets ACKs from all the
                        // participants.
                        Notice::RequestPrepare.list_for_each(participants, actions);
                    }
                } else {
                    // This model emulates voting against commit as sending `AckPrepareFail`
                    // to the coordinator.
                    actions.push(Action::AckPrepare(node_id));
                    actions.push(Action::AckPrepareFail);
                }
            },
            State::Committed => {
                if Self::is_coordinator(node_id) {
                    // Send `Commit` messages to all the participants.
                    Notice::Commit.list_for_each(participants, actions);
                }
            },
            State::RolledBack => {
                if Self::is_coordinator(node_id) {
                    // Send `Rollback` messages to all the participants.
                    Notice::Rollback.list_for_each(participants, actions);
                }
            },
        }
        // Any node can crash any time.
        actions.push(Action::Crash(node_id));
    }

    /// Lists the actions that the nodes of `state` offer, node by node. What
    /// the coordinator addresses to each registered participant is listed in
    /// the order of `participants`.
    pub fn actions_in_order(state: &System, participants: &Vec<usize>, actions: &mut Vec<Action>)
        ensures
            final(actions)@ == old(actions)@ + system_actions(state@, participants@),
    {
        let mut node_id: usize = 0;
        while node_id < state.node_map.len()
            invariant
                0 <= node_id <= state@.len(),
                state@.len() == state.node_map@.len(),
                actions@ == old(actions)@ + system_actions(
                    state@.take(node_id as int),
                    participants@,
                ),
            decreases state@.len() - node_id,
        {
            let ghost listed = state@.take(node_id + 1);
            assert(listed.drop_last() == state@.take(node_id as int));
            Self::add_actions_per_node(node_id, &state.node_map[node_id], participants, actions);
            node_id += 1;
        }
        assert(state@.take(node_id as int) == state@);
    }

    /// Lists the actions that are enabled in `state`: those that some node
    /// offers. They are listed node by node; the order in which the
    /// coordinator's participants are named is the registry's own.
    pub fn actions(&self, state: &System, actions: &mut Vec<Action>)
        ensures
            exists|participants: Seq<usize>|
                lists_participants(state@, participants) && final(actions)@ == old(actions)@
                    + #[trigger] system_actions(state@, participants),
            forall|action: Action|
                #[trigger] final(actions)@.contains(action) <==> old(actions)@.contains(action)
                    || enabled(state@, action),
    {
        let participants = if state.node_map.len() > 0 {
            state.node_map[0].transaction.participants()
        } else {
            Vec::new()
        };
        Self::actions_in_order(state, &participants, actions);
        proof {
            assert forall|action: Action|
                #[trigger] actions@.contains(action) <==> old(actions)@.contains(action) || enabled(
                    state@,
                    action,
                ) by {
                lemma_system_lists_the_enabled(state@, participants@, action);
                lemma_concat_contains(
                    old(actions)@,
                    system_actions(state@, participants@),
                    action,
                );
            }
        }
    }

    /// Whether the coordinator has committed or can still come to commit.
    fn is_commit_in_reach(state: &System) -> (in_reach: bool)
        ensures
            in_reach == commit_in_reach(state@),
    {
        if state.node_map.len() == 0 {
            return false;
        }
        let coordinator = &state.node_map[Self::coordinator_node_id()].transaction;
        match coordinator.state() {
            State::Committed => true,
            State::Prepared => {
                let participants = coordinator.participants();
                let mut i: usize = 0;
                while i < participants.len()
                    invariant
                        0 <= i <= participants.len(),
                        state@.len() == state.node_map@.len(),
                        state@.len() > 0,
                        coordinator@ == state@[0].transaction,
                        coordinator@.state == State::Prepared,
                        coordinator@.enumerated_by(participants@),
                        forall|k: int|
                            0 <= k < i ==> coordinator@.reported(#[trigger] participants@[k])
                                || can_still_vote(state@, participants@[k]),
                    decreases participants.len() - i,
                {
                    let id = participants[i];
                    let reported = match coordinator.participant_prepared(id) {
                        Some(prepared) => prepared,
                        None => false,
                    };
                    let can_vote = id < state.node_map.len() && match state.node_map[id].transaction.state() {
                        State::Active | State::Prepared => true,
                        _ => false,
                    };
                    if !reported && !can_vote {
                        return false;
                    }
                    i += 1;
                }
                true
            },
            _ => false,
        }
    }

    /// Whether `action` disrupts the protocol in `state`: whether it is a crash
    /// that makes a node forget what another relies on, or a request to join
    /// that comes after the commit. The invariant is proved for the system
    /// that takes no such action; an exploration can leave them out.
    pub fn is_disruptive(state: &System, action: Action) -> (disrupts: bool)
        ensures
            disrupts == disruptive(state@, action),
    {
        match action {
            Action::Crash(node_id) => {
                if Self::is_coordinator(node_id) {
                    let mut id: usize = 1;
                    while id < state.node_map.len()
                        invariant
                            1 <= id,
                            node_id == 0,
                            action == Action::Crash(node_id),
                            state@.len() == state.node_map@.len(),
                            forall|other: usize|
                                0 < other < id && other < state@.len() ==> !engaged(
                                    #[trigger] state@[other as int].state(),
                                ),
                        decreases state.node_map@.len() - id,
                    {
                        match state.node_map[id].transaction.state() {
                            State::Active | State::Committed | State::RolledBack => {
                                assert(engaged(state@[id as int].state()));
                                return true;
                            },
                            State::Inactive | State::Prepared => {},
                        }
                        id += 1;
                    }
                    false
                } else if state.node_map.len() > 0 {
                    let coordinator = &state.node_map[Self::coordinator_node_id()].transaction;
                    match coordinator.participant_prepared(node_id) {
                        Some(true) => Self::is_commit_in_reach(state),
                        _ => false,
                    }
                } else {
                    false
                }
            },
            Action::RequestJoin(_) => state.node_map.len() > 0 && state.node_map[0].transaction.state()
                == State::Committed,
            _ => false,
        }
    }

    /// The properties that are to hold in every configuration that can be
    /// reached: the single invariant [`SafetyProperty::Acid`].
    pub fn properties(&self) -> (properties: Vec<SafetyProperty>)
        ensures
            properties@ == seq![SafetyProperty::Acid],
    {
        vec![SafetyProperty::Acid]
    }

    /// The configuration that differs from `last_state` in the node `node_id` alone.
    fn next_system_state(last_state: &System, node_id: usize, next_node_state: Node) -> (next: System)
        requires
            node_id < last_state@.len(),
        ensures
            next@ == last_state@.update(node_id as int, next_node_state@),
    {
        proof {
            use_type_invariant(last_state);
            use_type_invariant(&next_node_state.transaction);
        }
        let mut next_node_map: Vec<Node> = last_state.node_map.clone();
        next_node_map.set(node_id, next_node_state);
        System { node_map: next_node_map }
    }

    /// The node with its transaction started, where it had not started yet.
    fn start_transaction(node: &Node) -> (next: Option<Node>)
        ensures
            next is Some <==> node@.state() == State::Inactive,
            next matches Some(started) ==> started@ == node@.with(node@.transaction.start()),
    {
        if node.transaction.state() == State::Inactive {
            let mut new_node_state = node.clone();
            new_node_state.transaction.start();
            Some(new_node_state)
        } else {
            None
        }
    }

    /// The coordinator with its transaction started and the participant
    /// registered.
    fn add_participant(node: &Node, participant_node_id: usize) -> (next: Node)
        ensures
            next@ == node@.with(node@.transaction.start().add_participant(participant_node_id)),
    {
        let mut new_node_state = node.clone();
        // Make sure that the transaction is active.
        new_node_state.transaction.start();
        new_node_state.transaction.add_participant(participant_node_id);
        new_node_state
    }

    /// The participant with its transaction started, if it had not started yet.
    fn start_distributed_transaction(node: &Node) -> (next: Node)
        ensures
            next@ == node@.with(node@.transaction.start()),
    {
        let mut new_node_state = node.clone();
        // The coordinator knows that this node participates in the distributed transaction.
        new_node_state.transaction.start();
        new_node_state
    }

    /// The node with its transaction prepared, if it was active.
    fn prepare_distributed_transaction(node: &Node) -> (next: Node)
        ensures
            next@ == node@.with(node@.transaction.prepare()),
    {
        let mut new_node_state = node.clone();
        // Prepare the transaction for commit.
        new_node_state.transaction.prepare();
        new_node_state
    }

    /// The coordinator with the participant's vote, if it accepts it.
    fn mark_prepared(node: &Node, participant_node_id: usize) -> (next: Node)
        ensures
            next@ == node@.with(node@.transaction.report_prepared(participant_node_id)),
    {
        let mut new_node_state = node.clone();
        new_node_state.transaction.report_prepared(participant_node_id);
        new_node_state
    }

    /// The node with its transaction committed, if it was prepared.
    fn commit_distributed_transaction(node: &Node) -> (next: Node)
        ensures
            next@ == node@.with(node@.transaction.commit()),
    {
        let mut new_node_state = node.clone();
        // Commit the transaction.
        new_node_state.transaction.commit();
        new_node_state
    }

    /// The node with its transaction rolled back, unless it had decided.
    fn rollback_distributed_transaction(node: &Node) -> (next: Node)
        ensures
            next@ == node@.with(node@.transaction.rollback()),
    {
        let mut new_node_state = node.clone();
        // Rollback the transaction.
        new_node_state.transaction.rollback();
        new_node_state
    }

    /// A crash loses the transaction and whatever the node had logged.
    fn crash_restart() -> (next: Node)
        ensures
            next@ == NodeView::initial(),
    {
        Node::default()
    }

    /// The transition function: the successor of `last_state` under `action`,
    /// or `None` where the action cannot be applied.
    pub fn next_state(&self, last_state: &System, action: Action) -> (next: Option<System>)
        ensures
            next is Some <==> applicable(last_state@, action),
            next matches Some(successor) ==> Some(successor@) == step(last_state@, action)
                && well_formed(successor@),
    {
        let node_id = match action {
            Action::Start(node_id) => node_id,
            Action::RequestJoin(_) => Self::coordinator_node_id(),
            Action::AckJoin(node_id) => node_id,
            Action::RequestPrepare(node_id) => node_id,
            Action::AckPrepare(_) => Self::coordinator_node_id(),
            Action::AckPrepareFail => Self::coordinator_node_id(),
            Action::Commit(node_id) => node_id,
            Action::Rollback(node_id) => node_id,
            Action::Crash(node_id) => node_id,
        };
        let node = match last_state.node(node_id) {
            Some(node) => node,
            None => {
                return None;
            },
        };
        let next_node_state = match action {
            Action::Start(_) => match Self::start_transaction(node) {
                Some(started) => started,
                None => {
                    return None;
                },
            },
            Action::RequestJoin(participant_node_id) => Self::add_participant(
                node,
                participant_node_id,
            ),
            Action::AckJoin(_) => Self::start_distributed_transaction(node),
            Action::RequestPrepare(_) => Self::prepare_distributed_transaction(node),
            Action::AckPrepare(participant_node_id) => Self::mark_prepared(node, participant_node_id),
            Action::AckPrepareFail => Self::rollback_distributed_transaction(node),
            Action::Commit(_) => Self::commit_distributed_transaction(node),
            Action::Rollback(_) => Self::rollback_distributed_transaction(node),
            Action::Crash(_) => Self::crash_restart(),
        };
        let successor = Self::next_system_state(last_state, node_id, next_node_state);
        proof {
            use_type_invariant(&successor);
        }
        Some(successor)
    }
}

} // verus!
