//! The agreement invariant that is evaluated on every configuration, and the
//! proof that the system keeps it as long as the protocol is not disrupted.
//!
//! The system as a whole does not keep the invariant: a node may crash at any
//! time and forget what others rely on, and a node may ask to join after the
//! coordinator has committed. [`disruptive`] says which actions these are.

use crate::enabling::{enabled, offers};
use crate::traces::lemma_run_concat;
use crate::transaction::State;
use crate::transaction_model::{initial_system, run, step, Action, SystemView};
use vstd::prelude::*;

verus! {

/// Whether all the nodes that have decided have decided alike: no node is
/// committed while another is rolled back.
pub open spec fn agreed(system: SystemView) -> bool {
    forall|i: int, j: int|
        #![trigger system[i], system[j]]
        0 <= i < system.len() && 0 <= j < system.len() && system[i].state().terminal()
            && system[j].state().terminal() ==> system[i].state() == system[j].state()
}

/// Whether the participant `node_id` can follow a coordinator that has
/// committed: it is a node of the configuration, and it is prepared for the
/// commit or has committed.
pub open spec fn follows_commit(system: SystemView, node_id: usize) -> bool {
    &&& node_id < system.len()
    &&& system[node_id as int].state() == State::Prepared || system[node_id as int].state()
        == State::Committed
}

/// Whether, where the coordinator has committed, every participant that it has
/// registered can follow.
pub open spec fn commit_is_followed(system: SystemView) -> bool {
    system.len() > 0 && system[0].state() == State::Committed ==> forall|node_id: usize|
        system[0].transaction.registered(node_id) ==> follows_commit(system, node_id)
}

/// The invariant: the nodes that have decided agree, and a commit of the
/// coordinator is one that every registered participant can follow.
pub open spec fn acid(system: SystemView) -> bool {
    agreed(system) && commit_is_followed(system)
}

/// Whether a participant in this state has taken part in a transaction beyond
/// preparing for it: it is active, or it has decided.
pub open spec fn engaged(state: State) -> bool {
    state == State::Active || state == State::Committed || state == State::RolledBack
}

/// Whether the participant `node_id` can still come to report that it is
/// prepared: it is a node that is active or prepared.
pub open spec fn can_still_vote(system: SystemView, node_id: usize) -> bool {
    &&& node_id < system.len()
    &&& system[node_id as int].state() == State::Active || system[node_id as int].state()
        == State::Prepared
}

/// Whether the coordinator has committed or can still come to commit: it is
/// prepared, and every registered participant has reported or can still come
/// to report.
pub open spec fn commit_in_reach(system: SystemView) -> bool {
    let coordinator = system[0].transaction;
    &&& system.len() > 0
    &&& {
        ||| coordinator.state == State::Committed
        ||| coordinator.state == State::Prepared && forall|id: usize|
            #[trigger] coordinator.registered(id) ==> coordinator.reported(id) || can_still_vote(
                system,
                id,
            )
    }
}

/// Whether `action` disrupts the protocol in `system`: it makes a node forget
/// what another relies on, or it enrols a participant after the decision.
///
/// - A crash of the coordinator while a participant is active or has decided.
/// - A crash of a participant whose vote the coordinator holds, while the
///   coordinator has committed or can still come to commit.
/// - A request to join that reaches a coordinator that has committed.
pub open spec fn disruptive(system: SystemView, action: Action) -> bool {
    match action {
        Action::Crash(node_id) => if node_id == 0 {
            exists|id: usize| 0 < id < system.len() && engaged(#[trigger] system[id as int].state())
        } else {
            system.len() > 0 && system[0].transaction.reported(node_id) && commit_in_reach(system)
        },
        Action::RequestJoin(_) => system.len() > 0 && system[0].state() == State::Committed,
        _ => false,
    }
}

/// Whether every action of `trace`, taken from `system` on, is enabled where
/// it is taken, is applied, and does not disrupt the protocol.
pub open spec fn undisturbed(system: SystemView, trace: Seq<Action>) -> bool
    decreases trace.len(),
{
    trace.len() > 0 ==> {
        &&& undisturbed(system, trace.drop_last())
        &&& run(system, trace.drop_last()) matches Some(before) && enabled(before, trace.last())
            && !disruptive(before, trace.last())
    }
}

/// An undisturbed sequence of steps stays undisturbed with one more step that
/// is enabled and does not disrupt the protocol.
pub proof fn lemma_undisturbed_push(system: SystemView, trace: Seq<Action>, action: Action)
    requires
        undisturbed(system, trace),
        run(system, trace) matches Some(reached) && enabled(reached, action) && !disruptive(
            reached,
            action,
        ),
    ensures
        undisturbed(system, trace.push(action)),
{
    assert(trace.push(action).drop_last() =~= trace);
}

/// An undisturbed sequence of steps, followed by one that is undisturbed from
/// where the first has led, is undisturbed.
pub proof fn lemma_undisturbed_concat(system: SystemView, first: Seq<Action>, second: Seq<Action>)
    requires
        undisturbed(system, first),
        run(system, first) matches Some(reached) && undisturbed(reached, second),
    ensures
        undisturbed(system, first + second),
    decreases second.len(),
{
    if second.len() > 0 {
        assert((first + second).drop_last() =~= first + second.drop_last());
        lemma_undisturbed_concat(system, first, second.drop_last());
        lemma_run_concat(system, first, second.drop_last());
    }
}

/// Every registered participant is a node other than the coordinator.
pub open spec fn registered_are_nodes(system: SystemView) -> bool {
    forall|id: usize| #[trigger] system[0].transaction.registered(id) ==> 0 < id < system.len()
}

/// Every participant that is active or has decided is registered.
pub open spec fn engaged_are_registered(system: SystemView) -> bool {
    forall|id: usize|
        0 < id < system.len() && engaged(#[trigger] system[id as int].state())
            ==> system[0].transaction.registered(id)
}

/// The coordinator holds votes only once it is prepared.
pub open spec fn votes_were_requested(system: SystemView) -> bool {
    forall|id: usize|
        #[trigger] system[0].transaction.reported(id) ==> system[0].state() != State::Inactive
            && system[0].state() != State::Active
}

/// A participant whose vote the coordinator holds is not active; and while
/// the coordinator has committed or can still come to commit, it is prepared
/// or has decided.
pub open spec fn reported_are_prepared(system: SystemView) -> bool {
    forall|id: usize|
        #[trigger] system[0].transaction.reported(id) ==> {
            &&& system[id as int].state() != State::Active
            &&& commit_in_reach(system) ==> system[id as int].state() != State::Inactive
        }
}

/// A participant has committed only where the coordinator has.
pub open spec fn commits_were_ordered(system: SystemView) -> bool {
    forall|id: usize|
        0 < id < system.len() && #[trigger] system[id as int].state() == State::Committed
            ==> system[0].state() == State::Committed
}

/// A participant whose vote the coordinator holds has rolled back only where
/// the coordinator has.
pub open spec fn rollbacks_were_ordered(system: SystemView) -> bool {
    forall|id: usize|
        #[trigger] system[0].transaction.reported(id) && system[id as int].state()
            == State::RolledBack ==> system[0].state() == State::RolledBack
}

/// The coordinator has committed only with the vote of every registered
/// participant.
pub open spec fn commit_was_unanimous(system: SystemView) -> bool {
    system[0].state() == State::Committed ==> system[0].transaction.all_prepared()
}

/// What the coordinator's registry and the participants' states have to do
/// with each other as long as the protocol is not disrupted.
pub open spec fn consistent(system: SystemView) -> bool {
    &&& system.len() <= usize::MAX
    &&& system.len() > 0 ==> {
        &&& system[0].transaction.wf()
        &&& registered_are_nodes(system)
        &&& engaged_are_registered(system)
        &&& votes_were_requested(system)
        &&& reported_are_prepared(system)
        &&& commits_were_ordered(system)
        &&& rollbacks_were_ordered(system)
        &&& commit_was_unanimous(system)
    }
}

/// The configuration in which nothing has happened yet is consistent.
pub proof fn lemma_initial_is_consistent(num_nodes: nat)
    requires
        num_nodes <= usize::MAX,
    ensures
        consistent(initial_system(num_nodes)),
{
}

/// An enabled action that does not disrupt the protocol can be applied to a
/// consistent configuration, and leads to a consistent one.
pub proof fn lemma_step_keeps_consistent(system: SystemView, action: Action)
    requires
        consistent(system),
        enabled(system, action),
        !disruptive(system, action),
    ensures
        step(system, action) matches Some(next) && consistent(next),
{
    let offering = choose|node_id: usize|
        node_id < system.len() && #[trigger] offers(node_id, system[node_id as int], action);
    assert(offers(offering, system[offering as int], action));
    let before = system[0].transaction;
    let next = step(system, action).unwrap();
    let after = next[0].transaction;
    // The registry gains no participant but one that asks to join, and no
    // vote but that of a participant that is prepared.
    assert forall|id: usize| #[trigger] after.registered(id) implies 0 < id < next.len() by {
        assert(before.registered(id) || action == Action::RequestJoin(id));
    }
    assert forall|id: usize| #[trigger] after.reported(id) implies after.state != State::Inactive
        && after.state != State::Active by {
        assert(before.reported(id) || action == Action::AckPrepare(id));
    }
    // A coordinator that waits for a vote that cannot come goes on waiting.
    if commit_in_reach(next) && !commit_in_reach(system) && before.state == State::Prepared {
        let stuck = choose|id: usize|
            #[trigger] before.registered(id) && !(before.reported(id) || can_still_vote(system, id));
        assert(after.registered(stuck));
    }
    assert forall|id: usize| #[trigger] after.reported(id) implies {
        &&& next[id as int].state() != State::Active
        &&& commit_in_reach(next) ==> next[id as int].state() != State::Inactive
    } by {
        assert(before.reported(id) || action == Action::AckPrepare(id));
    }
    assert forall|id: usize|
        #[trigger] after.reported(id) && next[id as int].state()
            == State::RolledBack implies after.state == State::RolledBack by {
        assert(before.reported(id) || action == Action::AckPrepare(id));
        assert(system[id as int].state() == State::RolledBack || action == Action::Rollback(id));
    }
    if after.state == State::Committed {
        assert forall|id: usize| after.registered(id) implies after.reported(id) by {
            assert(before.reported(id));
        }
    }
}

/// A consistent configuration satisfies the invariant.
pub proof fn lemma_consistent_is_acid(system: SystemView)
    requires
        consistent(system),
    ensures
        acid(system),
{
}

/// From the initial configuration on, the invariant holds after every
/// sequence of enabled actions of which none disrupts the protocol.
pub proof fn lemma_undisturbed_system_is_safe(num_nodes: nat, trace: Seq<Action>)
    requires
        num_nodes <= usize::MAX,
        undisturbed(initial_system(num_nodes), trace),
    ensures
        run(initial_system(num_nodes), trace) matches Some(reached) && consistent(reached) && acid(
            reached,
        ),
    decreases trace.len(),
{
    let initial = initial_system(num_nodes);
    if trace.len() == 0 {
        lemma_initial_is_consistent(num_nodes);
        lemma_consistent_is_acid(initial);
    } else {
        lemma_undisturbed_system_is_safe(num_nodes, trace.drop_last());
        let before = run(initial, trace.drop_last()).unwrap();
        lemma_step_keeps_consistent(before, trace.last());
        lemma_consistent_is_acid(step(before, trace.last()).unwrap());
    }
}

} // verus!
