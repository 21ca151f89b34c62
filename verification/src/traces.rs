//! What holds of every step of the system, and of every sequence of steps.

use crate::history::rank;
use crate::transaction_model::{run, step, target, Action, NodeView, SystemView};
use vstd::prelude::*;

verus! {

/// Whether every registry of `system` holds finitely many participants.
pub open spec fn well_formed(system: SystemView) -> bool {
    forall|node_id: int| 0 <= node_id < system.len() ==> (#[trigger] system[node_id]).transaction.wf()
}

/// Whether no action of `trace` is a crash.
pub open spec fn crash_free(trace: Seq<Action>) -> bool {
    forall|i: int| 0 <= i < trace.len() ==> !((#[trigger] trace[i]) is Crash)
}

/// Whether every node of `later` holds in its registry all that the same node
/// of `earlier` held.
pub open spec fn keeps_registries_of(later: SystemView, earlier: SystemView) -> bool {
    &&& later.len() == earlier.len()
    &&& forall|node_id: int|
        0 <= node_id < later.len() ==> (#[trigger] later[node_id]).transaction.keeps_registry_of(
            earlier[node_id].transaction,
        )
    &&& forall|node_id: int|
        0 <= node_id < later.len() ==> earlier[node_id].transaction.participants.len() <= (
        #[trigger] later[node_id]).transaction.participants.len()
}

/// A sequence of steps followed by one more step is the sequence, and then
/// the step.
pub proof fn lemma_run_push(system: SystemView, trace: Seq<Action>, action: Action)
    ensures
        run(system, trace.push(action)) == match run(system, trace) {
            Some(reached) => step(reached, action),
            None => None,
        },
{
    assert(trace.push(action).drop_last() =~= trace);
}

/// A sequence of steps followed by a second sequence is the first, and then
/// the second from where the first has led.
pub proof fn lemma_run_concat(system: SystemView, first: Seq<Action>, second: Seq<Action>)
    ensures
        run(system, first + second) == match run(system, first) {
            Some(reached) => run(reached, second),
            None => None,
        },
    decreases second.len(),
{
    if second.len() > 0 {
        assert((first + second).drop_last() =~= first + second.drop_last());
        lemma_run_concat(system, first, second.drop_last());
    }
}

/// A step changes at most the one node that its action is aimed at.
pub proof fn lemma_step_is_local(system: SystemView, action: Action, node_id: int)
    requires
        step(system, action) is Some,
        0 <= node_id < system.len(),
        node_id != target(action),
    ensures
        step(system, action).unwrap().len() == system.len(),
        step(system, action).unwrap()[node_id] == system[node_id],
{
}

/// A crash of a node that is as it was in the beginning, inactive and without
/// participants, leaves the configuration as it is.
pub proof fn lemma_crash_of_initial_node(system: SystemView, node_id: usize)
    requires
        node_id < system.len(),
        system[node_id as int] == NodeView::initial(),
    ensures
        step(system, Action::Crash(node_id)) == Some(system),
{
}

/// A crash leaves a node as it was in the beginning, so a second crash of the
/// same node changes nothing.
pub proof fn lemma_crash_is_idempotent(system: SystemView, node_id: usize)
    requires
        node_id < system.len(),
    ensures
        step(system, Action::Crash(node_id)) matches Some(crashed) && step(
            crashed,
            Action::Crash(node_id),
        ) == Some(crashed),
{
    let crashed = step(system, Action::Crash(node_id)).unwrap();
    lemma_crash_of_initial_node(crashed, node_id);
}

/// Whether no node of `later` is in an earlier state than the same node of
/// `earlier`.
pub open spec fn no_node_went_back(later: SystemView, earlier: SystemView) -> bool {
    &&& later.len() == earlier.len()
    &&& forall|node_id: int|
        0 <= node_id < later.len() ==> rank(earlier[node_id].state()) <= rank(
            (#[trigger] later[node_id]).state(),
        )
}

/// A step other than a crash moves no node backward along Inactive, Active,
/// Prepared, and then Committed or RolledBack, and changes the state of no
/// node that has decided.
pub proof fn lemma_step_never_goes_back(system: SystemView, action: Action)
    requires
        !(action is Crash),
        step(system, action) is Some,
    ensures
        no_node_went_back(step(system, action).unwrap(), system),
        forall|node_id: int|
            0 <= node_id < system.len() && (#[trigger] system[node_id]).state().terminal() ==> step(
                system,
                action,
            ).unwrap()[node_id].state() == system[node_id].state(),
{
}

/// A sequence of steps without a crash moves no node backward, and changes
/// the state of no node that has decided.
pub proof fn lemma_run_never_goes_back(system: SystemView, trace: Seq<Action>)
    requires
        crash_free(trace),
        run(system, trace) is Some,
    ensures
        no_node_went_back(run(system, trace).unwrap(), system),
        forall|node_id: int|
            0 <= node_id < system.len() && (#[trigger] system[node_id]).state().terminal() ==> run(
                system,
                trace,
            ).unwrap()[node_id].state() == system[node_id].state(),
    decreases trace.len(),
{
    if trace.len() > 0 {
        let before = run(system, trace.drop_last()).unwrap();
        lemma_run_never_goes_back(system, trace.drop_last());
        lemma_step_never_goes_back(before, trace.last());
    }
}

/// A step other than a crash removes no participant from any registry, makes
/// no registry smaller, and takes back no participant's vote.
pub proof fn lemma_step_keeps_registries(system: SystemView, action: Action)
    requires
        well_formed(system),
        !(action is Crash),
        step(system, action) is Some,
    ensures
        well_formed(step(system, action).unwrap()),
        keeps_registries_of(step(system, action).unwrap(), system),
{
}

/// A sequence of steps without a crash removes no participant from any
/// registry, makes no registry smaller, and takes back no participant's vote.
pub proof fn lemma_run_keeps_registries(system: SystemView, trace: Seq<Action>)
    requires
        well_formed(system),
        crash_free(trace),
        run(system, trace) is Some,
    ensures
        well_formed(run(system, trace).unwrap()),
        keeps_registries_of(run(system, trace).unwrap(), system),
    decreases trace.len(),
{
    if trace.len() > 0 {
        let before = run(system, trace.drop_last()).unwrap();
        lemma_run_keeps_registries(system, trace.drop_last());
        lemma_step_keeps_registries(before, trace.last());
    }
}

} // verus!
