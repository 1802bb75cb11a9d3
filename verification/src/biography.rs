//! What a store tells of a stage and of a pipeline from their registration on.

use vstd::prelude::*;

use crate::belief::lemma_held_events;
use crate::history::{
    lemma_registered_pipeline_always_replays, lemma_registered_stage_always_replays, Operation,
};
use crate::identifier::{RunId, StageInstanceId};
use crate::journal::{pipeline_events, stage_events, StoredPipelineEvent};
use crate::lifecycle::{lemma_history_is_kept, lemma_life_of_a_stage};
use crate::model::StoreView;
use crate::pipeline::{PipelineEventKind, PipelineView};
use crate::scheduling::{lemma_history_schedules_what_it_names, schedules, stages_differ};
use crate::stage::{StageEventKind, StageState};

verus! {

/// From its registration on, whatever happens to the store, a stage loads with at most three
/// events of its own: its inputs were accepted, then its provisioning began, then its first
/// attempt started. Its revision counts them, its status and attempt say how far it came, and
/// its inputs are those that were accepted, from then on.
pub proof fn lemma_story_of_a_registered_stage(
    store: StoreView,
    run: RunId,
    state: StageState,
    history: Seq<Operation>,
)
    requires
        store.intact(),
    ensures
        store.with_stage(run, state) matches Ok(registered) ==> {
            let after = registered.after_all(history);
            &&& after.loaded_stage(run, state.stage_instance_id) matches Ok(current)
            &&& after.loaded_stage_events(run, state.stage_instance_id) matches Ok(events)
            &&& events.len() <= 3
            &&& forall|i: int|
                #![trigger events[i]]
                0 <= i < events.len() ==> {
                    &&& events[i].event.stage_instance_id == state.stage_instance_id
                    &&& events[i].event.prior_control_revision == i
                }
            &&& events.len() > 0 ==> {
                &&& events[0].event.kind matches StageEventKind::InputsAccepted {
                    input_manifest_digest,
                }
                &&& current.input_manifest_digest == Some(input_manifest_digest)
            }
            &&& events.len() > 1 ==> events[1].event.kind is ProvisioningBegun
            &&& events.len() > 2 ==> events[2].event.kind == (
            StageEventKind::NodeStarted { attempt: 1 })
            &&& events.len() == 0 ==> current == state && current.status is Pending
            &&& events.len() == 1 ==> current.status is Ready && current.attempt == 0
            &&& events.len() == 2 ==> current.status is Provisioning && current.attempt == 0
            &&& events.len() == 3 ==> current.status is Running && current.attempt == 1
            &&& current.control_revision == events.len()
            &&& current.stage_instance_id == state.stage_instance_id
            &&& current.component_digest == state.component_digest
            &&& current.predicate_digest == state.predicate_digest
            &&& current.status_reason_digest is None
        },
{
    if let Ok(registered) = store.with_stage(run, state) {
        let after = registered.after_all(history);
        lemma_registered_stage_always_replays(store, run, state, history);
        let events = after.loaded_stage_events(run, state.stage_instance_id)->Ok_0;
        let held = stage_events(events);
        lemma_held_events(events, Seq::empty());
        lemma_life_of_a_stage(state, held);
        lemma_history_is_kept(state, held);
        assert forall|i: int| #![trigger events[i]] 0 <= i < events.len() implies {
            &&& events[i].event.stage_instance_id == state.stage_instance_id
            &&& events[i].event.prior_control_revision == i
        } by {
            assert(held[i] == events[i].event);
        }
        if events.len() == 0 {
            assert(held =~= Seq::empty());
        }
    }
}

/// Some stored event schedules the stage.
pub open spec fn stored_event_schedules(
    events: Seq<StoredPipelineEvent>,
    stage: StageInstanceId,
) -> bool {
    exists|i: int|
        0 <= i < events.len() && (#[trigger] events[i]).event.kind == (
        PipelineEventKind::StageScheduled { stage_instance_id: stage })
}

/// From its registration on, whatever happens to the store, a pipeline whose stages differ
/// loads with the nodes that it was registered with; scheduled are exactly those whose stages
/// its events name.
pub proof fn lemma_story_of_a_registered_pipeline(
    store: StoreView,
    run: RunId,
    state: PipelineView,
    history: Seq<Operation>,
)
    requires
        store.intact(),
        stages_differ(state.nodes),
    ensures
        store.with_pipeline(run, state) matches Ok(registered) ==> {
            let after = registered.after_all(history);
            &&& after.loaded_pipeline(run) matches Ok(current)
            &&& after.loaded_pipeline_events(run) matches Ok(events)
            &&& current.definition_digest == state.definition_digest
            &&& current.control_revision == events.len()
            &&& current.nodes.len() == state.nodes.len()
            &&& forall|k: int|
                #![trigger current.nodes[k]]
                0 <= k < current.nodes.len() ==> {
                    &&& current.nodes[k].stage == state.nodes[k].stage
                    &&& current.nodes[k].needs == state.nodes[k].needs
                    &&& current.nodes[k].required_input_artifact_ids
                        == state.nodes[k].required_input_artifact_ids
                    &&& current.nodes[k].scheduled <==> stored_event_schedules(
                        events,
                        state.nodes[k].stage.stage_instance_id,
                    )
                }
        },
{
    if let Ok(registered) = store.with_pipeline(run, state) {
        let after = registered.after_all(history);
        lemma_registered_pipeline_always_replays(store, run, state, history);
        let events = after.loaded_pipeline_events(run)->Ok_0;
        let current = after.loaded_pipeline(run)->Ok_0;
        let held = pipeline_events(events);
        lemma_held_events(Seq::empty(), events);
        lemma_history_schedules_what_it_names(state, held);
        assert forall|k: int| 0 <= k < current.nodes.len() implies ((
        #[trigger] current.nodes[k]).scheduled <==> stored_event_schedules(
            events,
            state.nodes[k].stage.stage_instance_id,
        )) by {
            let id = state.nodes[k].stage.stage_instance_id;
            assert(!state.nodes[k].scheduled);
            if schedules(held, id) {
                let i = choose|i: int|
                    0 <= i < held.len() && (#[trigger] held[i]).kind == (
                    PipelineEventKind::StageScheduled { stage_instance_id: id });
                assert(held[i] == events[i].event);
            }
            if stored_event_schedules(events, id) {
                let i = choose|i: int|
                    0 <= i < events.len() && (#[trigger] events[i]).event.kind == (
                    PipelineEventKind::StageScheduled { stage_instance_id: id });
                assert(held[i] == events[i].event);
            }
        }
    }
}

} // verus!
