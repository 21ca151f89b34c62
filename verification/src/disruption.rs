//! Why the actions that count as disruptive are left out of the system for
//! which the invariant is proved: each of them can break the invariant.

use crate::enabling::{enabled, offers};
use crate::safety::{
    acid, can_still_vote, consistent, disruptive, engaged, follows_commit,
    lemma_undisturbed_concat, lemma_undisturbed_push, lemma_undisturbed_system_is_safe,
    registered_are_nodes, undisturbed,
};
use crate::traces::{lemma_run_concat, lemma_run_push};
use crate::transaction::{State, TransactionView};
use crate::transaction_model::{applicable, initial_system, run, step, Action, SystemView};
use vstd::prelude::*;
use vstd::set_lib::lemma_len_subset;

verus! {

/// Whether `trace`, taken from `system` on, is a sequence of enabled actions
/// of which none disrupts the protocol, and ends in a configuration that
/// violates the invariant.
pub open spec fn leads_to_violation(system: SystemView, trace: Seq<Action>) -> bool {
    &&& undisturbed(system, trace)
    &&& run(system, trace) matches Some(reached) && !acid(reached)
}

/// One more step of the undisturbed system.
proof fn lemma_one_more(
    system: SystemView,
    trace: Seq<Action>,
    reached: SystemView,
    action: Action,
) -> (next: SystemView)
    requires
        undisturbed(system, trace),
        run(system, trace) == Some(reached),
        enabled(reached, action),
        !disruptive(reached, action),
        applicable(reached, action),
    ensures
        undisturbed(system, trace.push(action)),
        run(system, trace.push(action)) == Some(next),
        step(reached, action) == Some(next),
{
    lemma_undisturbed_push(system, trace, action);
    lemma_run_push(system, trace, action);
    step(reached, action).unwrap()
}

/// The participants whose vote the coordinator does not hold yet.
spec fn outstanding(system: SystemView) -> Set<usize> {
    Set::new(
        |id: usize| system[0].transaction.registered(id) && !system[0].transaction.reported(id),
    )
}

/// Whether the coordinator is prepared and can still collect every vote that
/// it lacks, while it holds the vote of `victim`, which has forgotten it.
spec fn awaits_forgotten_vote(system: SystemView, victim: usize) -> bool {
    &&& 0 < system.len() <= usize::MAX
    &&& system[0].transaction.wf()
    &&& system[0].state() == State::Prepared
    &&& registered_are_nodes(system)
    &&& system[0].transaction.reported(victim)
    &&& system[victim as int].state() == State::Inactive
    &&& forall|id: usize| #[trigger]
        system[0].transaction.registered(id) ==> system[0].transaction.reported(id)
            || can_still_vote(system, id)
}

/// Where the coordinator holds a vote that the voter has forgotten, the
/// remaining votes can be collected and the coordinator can commit, which the
/// voter cannot follow.
proof fn lemma_forgotten_vote_breaks_the_invariant(system: SystemView, victim: usize) -> (trace: Seq<
    Action,
>)
    requires
        awaits_forgotten_vote(system, victim),
    ensures
        leads_to_violation(system, trace),
    decreases outstanding(system).len(),
{
    let coordinator = system[0].transaction;
    let none = Seq::<Action>::empty();
    if coordinator.all_prepared() {
        // Every vote is in: the coordinator commits.
        assert(offers(0, system[0], Action::Commit(0)));
        let committed = lemma_one_more(system, none, system, Action::Commit(0));
        assert(!follows_commit(committed, victim));
        none.push(Action::Commit(0))
    } else {
        // A vote is missing: its voter prepares, if it has not yet, and reports.
        let voter = choose|id: usize| coordinator.registered(id) && !coordinator.reported(id);
        let (asked, prepared) = if system[voter as int].state() == State::Active {
            assert(offers(0, system[0], Action::RequestPrepare(voter)));
            let prepared = lemma_one_more(system, none, system, Action::RequestPrepare(voter));
            (none.push(Action::RequestPrepare(voter)), prepared)
        } else {
            (none, system)
        };
        assert(offers(voter, prepared[voter as int], Action::AckPrepare(voter)));
        let told = lemma_one_more(system, asked, prepared, Action::AckPrepare(voter));
        let collected = asked.push(Action::AckPrepare(voter));
        let after = told[0].transaction;
        assert forall|id: usize| #[trigger] after.registered(id) implies after.reported(id)
            || can_still_vote(told, id) by {
            assert(coordinator.registered(id));
        }
        assert(registered_are_nodes(told)) by {
            assert forall|id: usize| #[trigger] told[0].transaction.registered(id) implies 0 < id
                < told.len() by {
                assert(coordinator.registered(id));
            }
        }
        // One vote less is missing now.
        assert(outstanding(told) =~= outstanding(system).remove(voter));
        lemma_len_subset(outstanding(system), coordinator.participants.dom());
        let rest = lemma_forgotten_vote_breaks_the_invariant(told, victim);
        lemma_undisturbed_concat(system, collected, rest);
        lemma_run_concat(system, collected, rest);
        collected + rest
    }
}

/// A coordinator that is as it was in the beginning can start, prepare and
/// commit on its own, while every other node stays as it is.
proof fn lemma_fresh_coordinator_can_commit(system: SystemView) -> (trace: Seq<Action>)
    requires
        0 < system.len(),
        system[0].transaction == TransactionView::initial(),
    ensures
        undisturbed(system, trace),
        run(system, trace) matches Some(reached) && reached[0].state() == State::Committed
            && reached.len() == system.len() && forall|id: int|
            0 < id < system.len() ==> reached[id] == system[id],
{
    let none = Seq::<Action>::empty();
    assert(offers(0, system[0], Action::Start(0)));
    let started = lemma_one_more(system, none, system, Action::Start(0));
    let trace = none.push(Action::Start(0));
    assert(offers(0, started[0], Action::RequestPrepare(0)));
    let prepared = lemma_one_more(system, trace, started, Action::RequestPrepare(0));
    let trace = trace.push(Action::RequestPrepare(0));
    assert(offers(0, prepared[0], Action::Commit(0)));
    lemma_one_more(system, trace, prepared, Action::Commit(0));
    trace.push(Action::Commit(0))
}

/// A coordinator that is as it was in the beginning can start and roll back
/// on its own, while every other node stays as it is.
proof fn lemma_fresh_coordinator_can_roll_back(system: SystemView) -> (trace: Seq<Action>)
    requires
        0 < system.len(),
        system[0].transaction == TransactionView::initial(),
    ensures
        undisturbed(system, trace),
        run(system, trace) matches Some(reached) && reached[0].state() == State::RolledBack
            && reached.len() == system.len() && forall|id: int|
            0 < id < system.len() ==> reached[id] == system[id],
{
    let none = Seq::<Action>::empty();
    assert(offers(0, system[0], Action::Start(0)));
    let started = lemma_one_more(system, none, system, Action::Start(0));
    let trace = none.push(Action::Start(0));
    assert(offers(0, started[0], Action::Rollback(0)));
    lemma_one_more(system, trace, started, Action::Rollback(0));
    trace.push(Action::Rollback(0))
}

/// An enabled action that disrupts the protocol can be applied to a
/// consistent configuration, and from where it leads the system can come to
/// violate the invariant without any further disruption. The steps that lead
/// there are returned.
pub proof fn lemma_disruption_can_break_the_invariant(system: SystemView, action: Action) -> (trace:
    Seq<Action>)
    requires
        consistent(system),
        enabled(system, action),
        disruptive(system, action),
    ensures
        step(system, action) matches Some(disrupted) && leads_to_violation(disrupted, trace),
{
    let offering = choose|node_id: usize|
        node_id < system.len() && #[trigger] offers(node_id, system[node_id as int], action);
    assert(offers(offering, system[offering as int], action));
    let disrupted = step(system, action).unwrap();
    let none = Seq::<Action>::empty();
    match action {
        Action::RequestJoin(joining) => {
            // The coordinator has committed, and the node that joins is inactive.
            assert(!follows_commit(disrupted, joining));
            none
        },
        Action::Crash(crashed) => {
            if crashed != 0 {
                if system[0].state() == State::Committed {
                    // The coordinator has committed, and the node that has
                    // crashed is inactive.
                    assert(!follows_commit(disrupted, crashed));
                    none
                } else {
                    lemma_forgotten_vote_breaks_the_invariant(disrupted, crashed)
                }
            } else {
                // The coordinator has forgotten the participant `other`, and
                // decides without it.
                let other = choose|id: usize|
                    0 < id < system.len() && engaged(#[trigger] system[id as int].state());
                if system[other as int].state() == State::Committed {
                    let trace = lemma_fresh_coordinator_can_roll_back(disrupted);
                    let reached = run(disrupted, trace).unwrap();
                    assert(reached[0].state() != reached[other as int].state());
                    trace
                } else if system[other as int].state() == State::RolledBack {
                    let trace = lemma_fresh_coordinator_can_commit(disrupted);
                    let reached = run(disrupted, trace).unwrap();
                    assert(reached[0].state() != reached[other as int].state());
                    trace
                } else {
                    assert(offers(other, disrupted[other as int], Action::Rollback(other)));
                    let left = lemma_one_more(disrupted, none, disrupted, Action::Rollback(other));
                    let leaving = none.push(Action::Rollback(other));
                    let deciding = lemma_fresh_coordinator_can_commit(left);
                    lemma_undisturbed_concat(disrupted, leaving, deciding);
                    lemma_run_concat(disrupted, leaving, deciding);
                    let reached = run(left, deciding).unwrap();
                    assert(reached[0].state() != reached[other as int].state());
                    leaving + deciding
                }
            }
        },
        _ => none,
    }
}

/// From the initial configuration on, every disruption puts the invariant at
/// risk: after any sequence of enabled actions of which none disrupts the
/// protocol, an enabled action that does can be applied, and from where it
/// leads the system can come to violate the invariant without any further
/// disruption. The steps that lead there are returned.
pub proof fn lemma_every_disruption_is_a_risk(
    num_nodes: nat,
    trace: Seq<Action>,
    action: Action,
) -> (rest: Seq<Action>)
    requires
        num_nodes <= usize::MAX,
        undisturbed(initial_system(num_nodes), trace),
        run(initial_system(num_nodes), trace) matches Some(reached) && enabled(reached, action)
            && disruptive(reached, action),
    ensures
        run(initial_system(num_nodes), trace.push(action)) matches Some(disrupted)
            && leads_to_violation(disrupted, rest),
{
    let initial = initial_system(num_nodes);
    lemma_undisturbed_system_is_safe(num_nodes, trace);
    lemma_run_push(initial, trace, action);
    lemma_disruption_can_break_the_invariant(run(initial, trace).unwrap(), action)
}

} // verus!
