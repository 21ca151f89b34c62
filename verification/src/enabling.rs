//! Which actions a configuration offers.
//!
//! The offers of all nodes stand side by side: they are choices among which an
//! explorer picks, and they include the choices of a coordinator that ignores
//! a unanimous vote and of a participant that votes against the commit.

use crate::transaction::State;
use crate::transaction_model::{Action, NodeView, SystemView};
use vstd::prelude::*;

verus! {

/// Whether the node `node_id`, being as `node` says, offers `action`. Node 0 is
/// the coordinator, every other node a participant.
pub open spec fn offers(node_id: usize, node: NodeView, action: Action) -> bool {
    let coordinator = node_id == 0;
    let transaction = node.transaction;
    let undecided = coordinator && transaction.state == State::Prepared
        && !transaction.all_prepared();
    let unanimous = coordinator && transaction.state == State::Prepared
        && transaction.all_prepared();
    match action {
        Action::Start(id) => id == node_id && coordinator && transaction.state == State::Inactive,
        Action::RequestJoin(id) => id == node_id && !coordinator && transaction.state
            == State::Inactive,
        Action::AckJoin(id) => coordinator && transaction.state == State::Active
            && transaction.registered(id),
        Action::RequestPrepare(id) => {
            ||| id == node_id && coordinator && transaction.state == State::Active
            ||| undecided && transaction.registered(id)
        },
        Action::AckPrepare(id) => id == node_id && !coordinator && transaction.state
            == State::Prepared,
        Action::AckPrepareFail => !coordinator && transaction.state == State::Prepared,
        Action::Commit(id) => {
            ||| id == node_id && unanimous
            ||| coordinator && transaction.state == State::Committed && transaction.registered(id)
        },
        Action::Rollback(id) => {
            ||| id == node_id && transaction.state == State::Active
            ||| id == node_id && unanimous
            ||| coordinator && transaction.state == State::RolledBack && transaction.registered(id)
        },
        Action::Crash(id) => id == node_id,
    }
}

/// Whether `action` is enabled in `system`: some node offers it.
pub open spec fn enabled(system: SystemView, action: Action) -> bool {
    exists|node_id: usize|
        node_id < system.len() && #[trigger] offers(node_id, system[node_id as int], action)
}

/// What the coordinator addresses to each of `participants`, in their order.
pub open spec fn to_each(participants: Seq<usize>, address: spec_fn(usize) -> Action) -> Seq<Action> {
    participants.map_values(address)
}

/// The actions that the node `node_id` offers on account of the state of its
/// transaction, in the order in which they are listed. What the coordinator
/// addresses to each registered participant is listed in the order of
/// `participants`; a participant's list does not depend on it.
pub open spec fn actions_by_state(node_id: usize, node: NodeView, participants: Seq<usize>) -> Seq<
    Action,
> {
    let coordinator = node_id == 0;
    match node.transaction.state {
        State::Inactive => if coordinator {
            seq![Action::Start(node_id)]
        } else {
            seq![Action::RequestJoin(node_id)]
        },
        State::Active => if coordinator {
            to_each(participants, |id: usize| Action::AckJoin(id)) + seq![
                Action::RequestPrepare(node_id),
                Action::Rollback(node_id),
            ]
        } else {
            seq![Action::Rollback(node_id)]
        },
        State::Prepared => if coordinator {
            if node.transaction.all_prepared() {
                seq![Action::Commit(node_id), Action::Rollback(node_id)]
            } else {
                to_each(participants, |id: usize| Action::RequestPrepare(id))
            }
        } else {
            seq![Action::AckPrepare(node_id), Action::AckPrepareFail]
        },
        State::Committed => if coordinator {
            to_each(participants, |id: usize| Action::Commit(id))
        } else {
            Seq::empty()
        },
        State::RolledBack => if coordinator {
            to_each(participants, |id: usize| Action::Rollback(id))
        } else {
            Seq::empty()
        },
    }
}

/// The actions that the node `node_id` offers, in the order in which they are
/// listed: those that the state of its transaction accounts for, and the
/// crash, which a node can suffer at any time.
pub open spec fn node_actions(node_id: usize, node: NodeView, participants: Seq<usize>) -> Seq<
    Action,
> {
    actions_by_state(node_id, node, participants) + seq![Action::Crash(node_id)]
}

/// The actions that the nodes of `system` offer, node by node in the order of
/// their ids.
pub open spec fn system_actions(system: SystemView, participants: Seq<usize>) -> Seq<Action>
    decreases system.len(),
{
    if system.len() == 0 {
        Seq::empty()
    } else {
        system_actions(system.drop_last(), participants) + node_actions(
            (system.len() - 1) as usize,
            system.last(),
            participants,
        )
    }
}

/// Whether `participants` names each participant that the coordinator of
/// `system` has registered exactly once. Without a coordinator it may be
/// anything.
pub open spec fn lists_participants(system: SystemView, participants: Seq<usize>) -> bool {
    system.len() > 0 ==> system[0].transaction.enumerated_by(participants)
}

/// What a concatenation contains is what either part contains.
pub(crate) proof fn lemma_concat_contains<A>(left: Seq<A>, right: Seq<A>, needle: A)
    ensures
        (left + right).contains(needle) <==> left.contains(needle) || right.contains(needle),
{
    let both = left + right;
    if both.contains(needle) {
        let i = choose|i: int| 0 <= i < both.len() && both[i] == needle;
        assert(i < left.len() ==> left[i] == needle);
        assert(i >= left.len() ==> right[i - left.len()] == needle);
    }
    if left.contains(needle) {
        let i = choose|i: int| 0 <= i < left.len() && left[i] == needle;
        assert(both[i] == needle);
    }
    if right.contains(needle) {
        let i = choose|i: int| 0 <= i < right.len() && right[i] == needle;
        assert(both[left.len() + i] == needle);
    }
}

/// A list of one action contains that action only.
proof fn lemma_one_contains(only: Action, needle: Action)
    ensures
        seq![only].contains(needle) <==> needle == only,
{
    assert(seq![only][0] == only);
}

/// A list of two actions contains those two only.
proof fn lemma_two_contain(first: Action, second: Action, needle: Action)
    ensures
        seq![first, second].contains(needle) <==> needle == first || needle == second,
{
    assert(seq![first, second][0] == first);
    assert(seq![first, second][1] == second);
}

/// What is addressed to each participant contains exactly what is addressed
/// to one of them.
proof fn lemma_to_each_contains(
    participants: Seq<usize>,
    address: spec_fn(usize) -> Action,
    needle: Action,
)
    ensures
        to_each(participants, address).contains(needle) <==> exists|id: usize|
            participants.contains(id) && #[trigger] address(id) == needle,
{
    let addressed = to_each(participants, address);
    if addressed.contains(needle) {
        let i = choose|i: int| 0 <= i < addressed.len() && addressed[i] == needle;
        assert(participants.contains(participants[i]) && address(participants[i]) == needle);
    }
    if exists|id: usize| participants.contains(id) && #[trigger] address(id) == needle {
        let id = choose|id: usize| participants.contains(id) && #[trigger] address(id) == needle;
        let i = choose|i: int| 0 <= i < participants.len() && participants[i] == id;
        assert(addressed[i] == needle);
    }
}

/// A node lists exactly the actions that it offers, whatever the order is in
/// which a coordinator's participants are named.
pub proof fn lemma_node_lists_its_offers(
    node_id: usize,
    node: NodeView,
    participants: Seq<usize>,
    action: Action,
)
    requires
        node_id == 0 ==> node.transaction.enumerated_by(participants),
    ensures
        node_actions(node_id, node, participants).contains(action) <==> offers(
            node_id,
            node,
            action,
        ),
{
    let by_state = actions_by_state(node_id, node, participants);
    lemma_concat_contains(by_state, seq![Action::Crash(node_id)], action);
    lemma_one_contains(Action::Crash(node_id), action);
    let coordinator = node_id == 0;
    match node.transaction.state {
        State::Inactive => {
            lemma_one_contains(Action::Start(node_id), action);
            lemma_one_contains(Action::RequestJoin(node_id), action);
        },
        State::Active => {
            let ack_join = |id: usize| Action::AckJoin(id);
            lemma_to_each_contains(participants, ack_join, action);
            lemma_two_contain(Action::RequestPrepare(node_id), Action::Rollback(node_id), action);
            lemma_concat_contains(
                to_each(participants, ack_join),
                seq![Action::RequestPrepare(node_id), Action::Rollback(node_id)],
                action,
            );
            lemma_one_contains(Action::Rollback(node_id), action);
            if coordinator && action is AckJoin {
                assert(ack_join(action->AckJoin_0) == action);
            }
        },
        State::Prepared => {
            let request_prepare = |id: usize| Action::RequestPrepare(id);
            lemma_to_each_contains(participants, request_prepare, action);
            lemma_two_contain(Action::Commit(node_id), Action::Rollback(node_id), action);
            lemma_two_contain(Action::AckPrepare(node_id), Action::AckPrepareFail, action);
            if coordinator && action is RequestPrepare {
                assert(request_prepare(action->RequestPrepare_0) == action);
            }
        },
        State::Committed => {
            let commit = |id: usize| Action::Commit(id);
            lemma_to_each_contains(participants, commit, action);
            if coordinator && action is Commit {
                assert(commit(action->Commit_0) == action);
            }
        },
        State::RolledBack => {
            let rollback = |id: usize| Action::Rollback(id);
            lemma_to_each_contains(participants, rollback, action);
            if coordinator && action is Rollback {
                assert(rollback(action->Rollback_0) == action);
            }
        },
    }
}

/// The actions listed for a configuration are exactly the enabled ones,
/// whatever the order is in which the coordinator's participants are named.
pub proof fn lemma_system_lists_the_enabled(
    system: SystemView,
    participants: Seq<usize>,
    action: Action,
)
    requires
        system.len() <= usize::MAX,
        lists_participants(system, participants),
    ensures
        system_actions(system, participants).contains(action) <==> enabled(system, action),
    decreases system.len(),
{
    if system.len() > 0 {
        let last_id = (system.len() - 1) as usize;
        let rest = system.drop_last();
        lemma_system_lists_the_enabled(rest, participants, action);
        lemma_node_lists_its_offers(last_id, system.last(), participants, action);
        lemma_concat_contains(
            system_actions(rest, participants),
            node_actions(last_id, system.last(), participants),
            action,
        );
        if enabled(system, action) {
            let node_id = choose|node_id: usize|
                node_id < system.len() && #[trigger] offers(node_id, system[node_id as int], action);
            assert(node_id < last_id ==> offers(node_id, rest[node_id as int], action));
        }
        if enabled(rest, action) {
            let node_id = choose|node_id: usize|
                node_id < rest.len() && #[trigger] offers(node_id, rest[node_id as int], action);
            assert(offers(node_id, system[node_id as int], action));
        }
        assert(offers(last_id, system.last(), action) ==> offers(
            last_id,
            system[last_id as int],
            action,
        ));
    }
}

} // verus!
