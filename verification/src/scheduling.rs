//! What a definition makes, what the events of a pipeline do to it node by node, and what a
//! whole history leaves.

use vstd::prelude::*;

use crate::digest::Sha256Digest;
use crate::identifier::StageInstanceId;
use crate::pipeline::{
    defined_nodes, needs_missing, node_index, some_need_missing, some_stage_repeated,
    some_stage_touched, NodeView, PipelineCommand, PipelineDefinitionError, PipelineEvent,
    PipelineEventKind, PipelineNodeDefinition, PipelineState, PipelineTransitionError, PipelineView,
};
use crate::select::lemma_first_index;

verus! {

/// The value of a pipeline's state holds every part of it, node by node.
pub proof fn lemma_pipeline_view_is_faithful(state: PipelineState)
    ensures
        state@.definition_digest == state.definition_digest,
        state@.control_revision == state.control_revision,
        state@.nodes.len() == state.nodes@.len(),
        forall|i: int|
            0 <= i < state.nodes@.len() ==> {
                let node = #[trigger] state.nodes@[i];
                &&& state@.nodes[i].stage == node.stage
                &&& state@.nodes[i].needs == node.needs@
                &&& state@.nodes[i].required_input_artifact_ids
                    == node.required_input_artifact_ids@
                &&& state@.nodes[i].scheduled == node.scheduled
            },
{
}

/// The node at `index` is the first of the stage.
pub open spec fn stands_at(nodes: Seq<NodeView>, stage: StageInstanceId, index: int) -> bool {
    &&& 0 <= index < nodes.len()
    &&& nodes[index].stage.stage_instance_id == stage
    &&& forall|k: int|
        0 <= k < index ==> (#[trigger] nodes[k]).stage.stage_instance_id != stage
}

/// No node is of the stage.
pub open spec fn stands_nowhere(nodes: Seq<NodeView>, stage: StageInstanceId) -> bool {
    forall|k: int| 0 <= k < nodes.len() ==> (#[trigger] nodes[k]).stage.stage_instance_id != stage
}

/// A stage is found at its first node, and nowhere where it has none.
pub proof fn lemma_node_index(nodes: Seq<NodeView>, stage: StageInstanceId, index: int)
    ensures
        node_index(nodes, stage) == Some(index) <==> stands_at(nodes, stage, index),
        node_index(nodes, stage) is None <==> stands_nowhere(nodes, stage),
{
    lemma_first_index(nodes, |node: NodeView| node.stage.stage_instance_id == stage);
}

/// Nothing has happened to a pipeline exactly where it is at revision 0, none of its nodes is
/// scheduled, and every stage is pending at revision 0 and attempt 0 without inputs and reason.
pub proof fn lemma_untouched_pipeline(state: PipelineView)
    ensures
        state.untouched() <==> {
            &&& state.control_revision == 0
            &&& forall|i: int|
                #![trigger state.nodes[i]]
                0 <= i < state.nodes.len() ==> {
                    let stage = state.nodes[i].stage;
                    &&& !state.nodes[i].scheduled
                    &&& stage.status is Pending
                    &&& stage.control_revision == 0
                    &&& stage.attempt == 0
                    &&& stage.input_manifest_digest is None
                    &&& stage.status_reason_digest is None
                }
        },
{
}

/// A definition makes a pipeline exactly where its stages are untouched and different from each
/// other and need only each other; the pipeline has the definition's digest and its stages,
/// needs and required inputs in their order, with nothing scheduled, and is untouched.
pub proof fn lemma_definition_makes_a_pipeline(
    digest: Sha256Digest,
    definitions: Seq<PipelineNodeDefinition>,
)
    ensures
        ({
            let result = PipelineView::defined(digest, defined_nodes(definitions));
            let touched = exists|i: int|
                0 <= i < definitions.len() && !(#[trigger] definitions[i]).stage.untouched();
            let repeated = exists|i: int, j: int|
                0 <= i < j < definitions.len() && (
                #[trigger] definitions[i]).stage.stage_instance_id == (
                #[trigger] definitions[j]).stage.stage_instance_id;
            let missing = exists|i: int, k: int|
                0 <= i < definitions.len() && 0 <= k < definitions[i].needs@.len()
                    && #[trigger] need_is_missing(definitions, i, k);
            &&& result == Err::<PipelineView, PipelineDefinitionError>(
                PipelineDefinitionError::StageNotPristine,
            ) <==> touched
            &&& result == Err::<PipelineView, PipelineDefinitionError>(
                PipelineDefinitionError::DuplicateStage,
            ) <==> !touched && repeated
            &&& result == Err::<PipelineView, PipelineDefinitionError>(
                PipelineDefinitionError::UnknownNeed,
            ) <==> !touched && !repeated && missing
            &&& result matches Ok(state) ==> {
                &&& state.definition_digest == digest
                &&& state.untouched()
                &&& state.nodes.len() == definitions.len()
                &&& forall|i: int|
                    0 <= i < definitions.len() ==> {
                        let definition = #[trigger] definitions[i];
                        &&& state.nodes[i].stage == definition.stage
                        &&& state.nodes[i].needs == definition.needs@
                        &&& state.nodes[i].required_input_artifact_ids
                            == definition.required_input_artifact_ids@
                        &&& !state.nodes[i].scheduled
                    }
            }
        }),
{
    let nodes = defined_nodes(definitions);
    assert(nodes.len() == definitions.len());
    assert forall|i: int| 0 <= i < definitions.len() implies (#[trigger] definitions[i])@
        == nodes[i] by {}
    if some_stage_touched(nodes) {
        let i = choose|i: int| 0 <= i < nodes.len() && !(#[trigger] nodes[i]).stage.untouched();
        assert(!definitions[i].stage.untouched());
    }
    if exists|i: int|
        0 <= i < definitions.len() && !(#[trigger] definitions[i]).stage.untouched() {
        let i = choose|i: int|
            0 <= i < definitions.len() && !(#[trigger] definitions[i]).stage.untouched();
        assert(!nodes[i].stage.untouched());
    }
    if some_stage_repeated(nodes) {
        let (i, j) = choose|i: int, j: int|
            0 <= i < j < nodes.len() && (#[trigger] nodes[i]).stage.stage_instance_id == (
            #[trigger] nodes[j]).stage.stage_instance_id;
        assert(definitions[i].stage.stage_instance_id == definitions[j].stage.stage_instance_id);
    }
    if exists|i: int, j: int|
        0 <= i < j < definitions.len() && (#[trigger] definitions[i]).stage.stage_instance_id == (
        #[trigger] definitions[j]).stage.stage_instance_id {
        let (i, j) = choose|i: int, j: int|
            0 <= i < j < definitions.len() && (
            #[trigger] definitions[i]).stage.stage_instance_id == (
            #[trigger] definitions[j]).stage.stage_instance_id;
        assert(nodes[i].stage.stage_instance_id == nodes[j].stage.stage_instance_id);
    }
    assert forall|i: int, k: int|
        0 <= i < definitions.len() && 0 <= k < definitions[i].needs@.len() implies (
    #[trigger] need_is_missing(definitions, i, k) <==> node_index(
        nodes,
        nodes[i].needs[k],
    ) is None) by {
        let need = definitions[i].needs@[k];
        assert(nodes[i].needs == definitions[i].needs@);
        lemma_node_index(nodes, need, 0);
        if need_is_missing(definitions, i, k) {
            assert forall|h: int| 0 <= h < nodes.len() implies (
            #[trigger] nodes[h]).stage.stage_instance_id != need by {
                assert(definitions[h].stage.stage_instance_id != need);
            }
        } else {
            let h = choose|h: int|
                0 <= h < definitions.len() && (
                #[trigger] definitions[h]).stage.stage_instance_id == need;
            assert(nodes[h].stage.stage_instance_id == need);
        }
    }
    if some_need_missing(nodes) {
        let i = choose|i: int| 0 <= i < nodes.len() && needs_missing(nodes, #[trigger] nodes[i]);
        let k = choose|k: int|
            0 <= k < nodes[i].needs.len() && node_index(nodes, #[trigger] nodes[i].needs[k]) is None;
        assert(nodes[i].needs == definitions[i].needs@);
        assert(need_is_missing(definitions, i, k));
    }
    if exists|i: int, k: int|
        0 <= i < definitions.len() && 0 <= k < definitions[i].needs@.len()
            && #[trigger] need_is_missing(definitions, i, k) {
        let (i, k) = choose|i: int, k: int|
            0 <= i < definitions.len() && 0 <= k < definitions[i].needs@.len()
                && #[trigger] need_is_missing(definitions, i, k);
        assert(nodes[i].needs == definitions[i].needs@);
        assert(node_index(nodes, nodes[i].needs[k]) is None);
        assert(needs_missing(nodes, nodes[i]));
    }
}

/// The `k`th stage that the `i`th one needs is not in the definition.
pub open spec fn need_is_missing(
    definitions: Seq<PipelineNodeDefinition>,
    i: int,
    k: int,
) -> bool {
    forall|h: int|
        0 <= h < definitions.len() ==> (#[trigger] definitions[h]).stage.stage_instance_id
            != definitions[i].needs@[k]
}

/// One state comes from the other by scheduling the node at `index`, and in no other way: that
/// node is scheduled and otherwise as before, every other node is as before, and the revision
/// is one up.
pub open spec fn only_scheduled(before: PipelineView, after: PipelineView, index: int) -> bool {
    &&& after.definition_digest == before.definition_digest
    &&& after.control_revision == before.control_revision + 1
    &&& after.nodes.len() == before.nodes.len()
    &&& after.nodes[index].scheduled
    &&& after.nodes[index].stage == before.nodes[index].stage
    &&& after.nodes[index].needs == before.nodes[index].needs
    &&& after.nodes[index].required_input_artifact_ids
        == before.nodes[index].required_input_artifact_ids
    &&& forall|k: int|
        0 <= k < before.nodes.len() && k != index ==> #[trigger] after.nodes[k] == before.nodes[k]
}

/// Scheduling a stage schedules that stage's node and leaves every other node as it is. The
/// pipeline takes the event exactly where it comes at its revision, leaves the revision in
/// range, and the stage's node is there, is not scheduled yet and waits for nothing.
pub proof fn lemma_event_schedules_its_stage(
    state: PipelineView,
    prior_control_revision: u64,
    stage_instance_id: StageInstanceId,
    index: int,
    next: PipelineView,
)
    requires
        stands_at(state.nodes, stage_instance_id, index),
    ensures
        state.applied(
            PipelineEvent {
                prior_control_revision,
                kind: PipelineEventKind::StageScheduled { stage_instance_id },
            },
        ) == Ok::<PipelineView, PipelineTransitionError>(next) <==> {
            &&& prior_control_revision == state.control_revision
            &&& state.control_revision < 9007199254740991
            &&& !state.nodes[index].scheduled
            &&& state.nodes[index].needs.len() == 0
            &&& state.nodes[index].required_input_artifact_ids.len() == 0
            &&& only_scheduled(state, next, index)
        },
{
    lemma_node_index(state.nodes, stage_instance_id, index);
    let event = PipelineEvent {
        prior_control_revision,
        kind: PipelineEventKind::StageScheduled { stage_instance_id },
    };
    if state.applied(event) is Ok && only_scheduled(state, next, index) {
        assert(next.nodes =~= state.applied(event)->Ok_0.nodes);
        assert(next =~= state.applied(event)->Ok_0);
    }
}

/// Why a pipeline refuses an event: it comes at another revision, or else there is no revision
/// left, or else its stage is unknown, or else scheduled already, or else waits for something;
/// and it refuses no other.
pub proof fn lemma_refused_pipeline_event(
    state: PipelineView,
    prior_control_revision: u64,
    stage_instance_id: StageInstanceId,
)
    ensures
        ({
            let result = state.applied(
                PipelineEvent {
                    prior_control_revision,
                    kind: PipelineEventKind::StageScheduled { stage_instance_id },
                },
            );
            let current = prior_control_revision == state.control_revision;
            let left = state.control_revision < 9007199254740991;
            let unknown = stands_nowhere(state.nodes, stage_instance_id);
            &&& result == Err::<PipelineView, PipelineTransitionError>(
                PipelineTransitionError::StaleRevision,
            ) <==> !current
            &&& result == Err::<PipelineView, PipelineTransitionError>(
                PipelineTransitionError::RevisionExhausted,
            ) <==> current && !left
            &&& result == Err::<PipelineView, PipelineTransitionError>(
                PipelineTransitionError::UnknownStage,
            ) <==> current && left && unknown
            &&& forall|index: int| #[trigger]
                stands_at(state.nodes, stage_instance_id, index) && current && left ==> {
                    let node = state.nodes[index];
                    let waits = node.needs.len() > 0 || node.required_input_artifact_ids.len() > 0;
                    &&& result == Err::<PipelineView, PipelineTransitionError>(
                        PipelineTransitionError::AlreadyScheduled,
                    ) <==> node.scheduled
                    &&& result == Err::<PipelineView, PipelineTransitionError>(
                        PipelineTransitionError::NeedsOutstanding,
                    ) <==> !node.scheduled && waits
                    &&& result is Ok <==> !node.scheduled && !waits
                }
        }),
{
    lemma_node_index(state.nodes, stage_instance_id, 0);
    assert forall|index: int| #[trigger]
        stands_at(state.nodes, stage_instance_id, index) implies node_index(
        state.nodes,
        stage_instance_id,
    ) == Some(index) by {
        lemma_node_index(state.nodes, stage_instance_id, index);
    }
}

/// Scheduling a stage comes to an event exactly where the pipeline takes it; the event names
/// that stage and comes at the expected revision. A refusal has the reason that the event is
/// refused for.
pub proof fn lemma_scheduling_a_stage(
    state: PipelineView,
    expected_revision: u64,
    stage_instance_id: StageInstanceId,
)
    ensures
        ({
            let result = state.decided(
                PipelineCommand::ScheduleStage { expected_revision, stage_instance_id },
            );
            let event = PipelineEvent {
                prior_control_revision: expected_revision,
                kind: PipelineEventKind::StageScheduled { stage_instance_id },
            };
            &&& result is Ok <==> state.applied(event) is Ok
            &&& result is Ok ==> result == Ok::<PipelineEvent, PipelineTransitionError>(event)
            &&& result matches Err(error) ==> state.applied(event) == Err::<
                PipelineView,
                PipelineTransitionError,
            >(error)
        }),
{
}

/// Replaying a history applies each event to what the events before it lead to.
pub proof fn lemma_pipeline_replay_event_by_event(
    initial: PipelineView,
    events: Seq<PipelineEvent>,
    event: PipelineEvent,
)
    ensures
        initial.replayed(Seq::empty()) == Ok::<PipelineView, PipelineTransitionError>(initial),
        initial.replayed(events) matches Ok(state) ==> initial.replayed(events.push(event))
            == state.applied(event),
        initial.replayed(events) matches Err(error) ==> initial.replayed(events.push(event))
            == Err::<PipelineView, PipelineTransitionError>(error),
{
    assert(events.push(event).drop_last() =~= events);
}

/// Some event of the history schedules the stage.
pub open spec fn schedules(events: Seq<PipelineEvent>, stage: StageInstanceId) -> bool {
    exists|i: int|
        0 <= i < events.len() && (#[trigger] events[i]).kind == (
        PipelineEventKind::StageScheduled { stage_instance_id: stage })
}

/// No stage stands in the pipeline twice.
pub open spec fn stages_differ(nodes: Seq<NodeView>) -> bool {
    forall|i: int, j: int|
        0 <= i < j < nodes.len() ==> (#[trigger] nodes[i]).stage.stage_instance_id != (
        #[trigger] nodes[j]).stage.stage_instance_id
}

/// A history schedules exactly the stages that its events name, each once, and changes nothing
/// else of the pipeline but its revision, which counts the events.
pub proof fn lemma_history_schedules_what_it_names(
    initial: PipelineView,
    events: Seq<PipelineEvent>,
)
    requires
        stages_differ(initial.nodes),
    ensures
        initial.replayed(events) matches Ok(state) ==> {
            &&& state.definition_digest == initial.definition_digest
            &&& state.control_revision == initial.control_revision + events.len()
            &&& state.nodes.len() == initial.nodes.len()
            &&& forall|k: int|
                #![trigger state.nodes[k]]
                0 <= k < state.nodes.len() ==> {
                    &&& state.nodes[k].stage == initial.nodes[k].stage
                    &&& state.nodes[k].needs == initial.nodes[k].needs
                    &&& state.nodes[k].required_input_artifact_ids
                        == initial.nodes[k].required_input_artifact_ids
                    &&& state.nodes[k].scheduled <==> initial.nodes[k].scheduled || schedules(
                        events,
                        initial.nodes[k].stage.stage_instance_id,
                    )
                }
            &&& forall|i: int, j: int|
                0 <= i < j < events.len() ==> (#[trigger] events[i]).kind != (
                #[trigger] events[j]).kind
            &&& forall|i: int|
                0 <= i < events.len() ==> (#[trigger] events[i]).prior_control_revision
                    == initial.control_revision + i
        },
    decreases events.len(),
{
    if events.len() > 0 && initial.replayed(events) is Ok {
        let front = events.drop_last();
        let last = events.last();
        lemma_history_schedules_what_it_names(initial, front);
        let before = initial.replayed(front)->Ok_0;
        let state = initial.replayed(events)->Ok_0;
        let PipelineEventKind::StageScheduled { stage_instance_id } = last.kind;
        lemma_node_index(before.nodes, stage_instance_id, 0);
        let index = node_index(before.nodes, stage_instance_id)->Some_0;
        lemma_node_index(before.nodes, stage_instance_id, index);
        lemma_event_schedules_its_stage(
            before,
            last.prior_control_revision,
            stage_instance_id,
            index,
            state,
        );
        assert forall|i: int| 0 <= i < front.len() implies front[i] == #[trigger] events[i] by {}
        assert forall|k: int| 0 <= k < state.nodes.len() implies (
        #[trigger] state.nodes[k]).scheduled == (initial.nodes[k].scheduled || schedules(
            events,
            initial.nodes[k].stage.stage_instance_id,
        )) && state.nodes[k].stage == initial.nodes[k].stage && state.nodes[k].needs
            == initial.nodes[k].needs && state.nodes[k].required_input_artifact_ids
            == initial.nodes[k].required_input_artifact_ids by {
            let id = initial.nodes[k].stage.stage_instance_id;
            assert(before.nodes[k].stage == initial.nodes[k].stage);
            if k == index {
                assert(events[events.len() - 1].kind == (
                PipelineEventKind::StageScheduled { stage_instance_id: id }));
            } else {
                assert(state.nodes[k] == before.nodes[k]);
                assert(before.nodes[index].stage == initial.nodes[index].stage);
                if index < k {
                    assert(initial.nodes[index].stage.stage_instance_id != id);
                } else {
                    assert(initial.nodes[k].stage.stage_instance_id
                        != initial.nodes[index].stage.stage_instance_id);
                }
                if schedules(front, id) {
                    let i = choose|i: int|
                        0 <= i < front.len() && (#[trigger] front[i]).kind == (
                        PipelineEventKind::StageScheduled { stage_instance_id: id });
                    assert(events[i].kind == front[i].kind);
                }
                if schedules(events, id) {
                    let i = choose|i: int|
                        0 <= i < events.len() && (#[trigger] events[i]).kind == (
                        PipelineEventKind::StageScheduled { stage_instance_id: id });
                    assert(i < front.len());
                    assert(front[i].kind == events[i].kind);
                }
            }
        }
        assert forall|i: int, j: int| 0 <= i < j < events.len() implies (
        #[trigger] events[i]).kind != (#[trigger] events[j]).kind by {
            if j == events.len() - 1 && events[i].kind == last.kind {
                assert(front[i].kind == last.kind);
                assert(schedules(front, stage_instance_id));
                assert(before.nodes[index].stage == initial.nodes[index].stage);
            }
        }
    }
}

} // verus!
