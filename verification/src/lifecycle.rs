//! What the events of a stage do to it, field by field and over whole histories.

use vstd::prelude::*;

use crate::digest::Sha256Digest;
use crate::identifier::StageInstanceId;
use crate::stage::{
    StageCommand, StageEvent, StageEventKind, StageState, StageStatus, StageTransitionError,
};

verus! {

/// Nothing has happened to a stage exactly where it is pending, at revision 0, before its first
/// attempt, without accepted inputs and without a reason for its status.
pub proof fn lemma_untouched_is_pending(state: StageState)
    ensures
        state.untouched() <==> {
            &&& state.status is Pending
            &&& state.control_revision == 0
            &&& state.attempt == 0
            &&& state.input_manifest_digest is None
            &&& state.status_reason_digest is None
        },
{
}

/// A new stage is the one that was asked for, and nothing has happened to it.
pub proof fn lemma_new_stage_is_untouched(
    id: StageInstanceId,
    component: Sha256Digest,
    predicate: Sha256Digest,
)
    ensures
        ({
            let state = StageState::pristine(id, component, predicate);
            &&& state.stage_instance_id == id
            &&& state.component_digest == component
            &&& state.predicate_digest == predicate
            &&& state.untouched()
        }),
{
}

/// A stage takes an event exactly where the event is about it, comes at its revision, leaves
/// the revision in range and follows from its status; then the revision is one up, the status
/// is the next one, the event's inputs or attempt are the stage's, and nothing else changes.
pub proof fn lemma_event_moves_a_stage(state: StageState, event: StageEvent, next: StageState)
    ensures
        state.applied(event) == Ok::<StageState, StageTransitionError>(next) <==> {
            &&& event.stage_instance_id == state.stage_instance_id
            &&& event.prior_control_revision == state.control_revision
            &&& next.control_revision == state.control_revision + 1
            &&& next.control_revision <= 9007199254740991
            &&& next.stage_instance_id == state.stage_instance_id
            &&& next.component_digest == state.component_digest
            &&& next.predicate_digest == state.predicate_digest
            &&& next.status_reason_digest == state.status_reason_digest
            &&& match event.kind {
                StageEventKind::InputsAccepted { input_manifest_digest } => {
                    &&& state.status is Pending
                    &&& next.status is Ready
                    &&& next.input_manifest_digest == Some(input_manifest_digest)
                    &&& next.attempt == state.attempt
                },
                StageEventKind::ProvisioningBegun => {
                    &&& state.status is Ready
                    &&& next.status is Provisioning
                    &&& next.input_manifest_digest == state.input_manifest_digest
                    &&& next.attempt == state.attempt
                },
                StageEventKind::NodeStarted { attempt } => {
                    &&& state.status is Provisioning
                    &&& next.status is Running
                    &&& next.input_manifest_digest == state.input_manifest_digest
                    &&& next.attempt == attempt
                    &&& attempt == state.attempt + 1
                },
            }
        },
{
}

/// The status of a stage allows the step.
pub open spec fn step_follows(state: StageState, kind: StageEventKind) -> bool {
    match kind {
        StageEventKind::InputsAccepted { .. } => state.status is Pending,
        StageEventKind::ProvisioningBegun => state.status is Ready,
        StageEventKind::NodeStarted { attempt } => state.status is Provisioning && attempt
            == state.attempt + 1,
    }
}

/// Why a stage refuses an event: it is about another stage, or else comes at another revision,
/// or else there is no revision left, or else does not follow from the status; and it refuses
/// no other.
pub proof fn lemma_refused_event(state: StageState, event: StageEvent)
    ensures
        ({
            let result = state.applied(event);
            let own = event.stage_instance_id == state.stage_instance_id;
            let current = event.prior_control_revision == state.control_revision;
            let left = state.control_revision < 9007199254740991;
            &&& result is Ok <==> own && current && left && step_follows(state, event.kind)
            &&& result == Err::<StageState, StageTransitionError>(
                StageTransitionError::WrongStage,
            ) <==> !own
            &&& result == Err::<StageState, StageTransitionError>(
                StageTransitionError::StaleRevision,
            ) <==> own && !current
            &&& result == Err::<StageState, StageTransitionError>(
                StageTransitionError::RevisionExhausted,
            ) <==> own && current && !left
            &&& result == Err::<StageState, StageTransitionError>(
                StageTransitionError::InvalidTransition,
            ) <==> own && current && left && !step_follows(state, event.kind)
        }),
{
    if state.applied(event) is Ok {
        lemma_event_moves_a_stage(state, event, state.applied(event)->Ok_0);
    }
}

/// Accepting inputs comes to an event exactly where the stage is pending at the expected
/// revision; the event is about the stage, comes at that revision and carries those inputs.
pub proof fn lemma_accepting_inputs(
    state: StageState,
    expected_revision: u64,
    digest: Sha256Digest,
    event: StageEvent,
)
    ensures
        state.decided(
            StageCommand::AcceptInputs { expected_revision, input_manifest_digest: digest },
        ) == Ok::<StageEvent, StageTransitionError>(event) <==> {
            &&& event.stage_instance_id == state.stage_instance_id
            &&& event.prior_control_revision == expected_revision
            &&& event.kind == StageEventKind::InputsAccepted { input_manifest_digest: digest }
            &&& expected_revision == state.control_revision
            &&& state.control_revision < 9007199254740991
            &&& state.status is Pending
        },
{
}

/// Beginning to provision comes to an event exactly where the stage is ready at the expected
/// revision; the event is about the stage and comes at that revision.
pub proof fn lemma_beginning_provisioning(
    state: StageState,
    expected_revision: u64,
    event: StageEvent,
)
    ensures
        state.decided(StageCommand::BeginProvisioning { expected_revision }) == Ok::<
            StageEvent,
            StageTransitionError,
        >(event) <==> {
            &&& event.stage_instance_id == state.stage_instance_id
            &&& event.prior_control_revision == expected_revision
            &&& event.kind is ProvisioningBegun
            &&& expected_revision == state.control_revision
            &&& state.control_revision < 9007199254740991
            &&& state.status is Ready
        },
{
}

/// Why a stage refuses a command: it expects another revision, or else there is no revision
/// left, or else the status does not allow it.
pub proof fn lemma_refused_command(state: StageState, command: StageCommand)
    ensures
        ({
            let result = state.decided(command);
            let expected = match command {
                StageCommand::AcceptInputs { expected_revision, .. } => expected_revision,
                StageCommand::BeginProvisioning { expected_revision } => expected_revision,
            };
            let current = expected == state.control_revision;
            let left = state.control_revision < 9007199254740991;
            &&& result == Err::<StageEvent, StageTransitionError>(
                StageTransitionError::StaleRevision,
            ) <==> !current
            &&& result == Err::<StageEvent, StageTransitionError>(
                StageTransitionError::RevisionExhausted,
            ) <==> current && !left
            &&& result == Err::<StageEvent, StageTransitionError>(
                StageTransitionError::InvalidTransition,
            ) <==> current && left && !(match command {
                StageCommand::AcceptInputs { .. } => state.status is Pending,
                StageCommand::BeginProvisioning { .. } => state.status is Ready,
            })
            &&& result != Err::<StageEvent, StageTransitionError>(StageTransitionError::WrongStage)
        }),
{
}

/// How far along its lifecycle a status is.
pub open spec fn progress(status: StageStatus) -> nat {
    match status {
        StageStatus::Pending => 0,
        StageStatus::Ready => 1,
        StageStatus::Provisioning => 2,
        StageStatus::Running => 3,
    }
}

/// Replaying a history applies each event to what the events before it lead to: a history
/// without events changes nothing, and one more event is applied at the end.
pub proof fn lemma_replay_event_by_event(
    initial: StageState,
    events: Seq<StageEvent>,
    event: StageEvent,
)
    ensures
        initial.replayed(Seq::empty()) == Ok::<StageState, StageTransitionError>(initial),
        initial.replayed(events) matches Ok(state) ==> initial.replayed(events.push(event))
            == state.applied(event),
        initial.replayed(events) matches Err(error) ==> initial.replayed(events.push(event))
            == Err::<StageState, StageTransitionError>(error),
{
    assert(events.push(event).drop_last() =~= events);
}

/// Over any history a stage moves one status on with each event, keeps the inputs that it
/// accepted, keeps what it had where it accepted none, and counts its attempts.
pub proof fn lemma_history_is_kept(initial: StageState, events: Seq<StageEvent>)
    ensures
        initial.replayed(events) matches Ok(state) ==> {
            &&& progress(state.status) == progress(initial.status) + events.len()
            &&& state.control_revision == initial.control_revision + events.len()
            &&& state.stage_instance_id == initial.stage_instance_id
            &&& state.component_digest == initial.component_digest
            &&& state.predicate_digest == initial.predicate_digest
            &&& state.status_reason_digest == initial.status_reason_digest
            &&& forall|i: int|
                #![trigger events[i]]
                0 <= i < events.len() ==> {
                    &&& events[i].stage_instance_id == initial.stage_instance_id
                    &&& events[i].prior_control_revision == initial.control_revision + i
                    &&& match events[i].kind {
                        StageEventKind::InputsAccepted { input_manifest_digest } => {
                            &&& progress(initial.status) + i == 0
                            &&& state.input_manifest_digest == Some(input_manifest_digest)
                        },
                        StageEventKind::ProvisioningBegun => progress(initial.status) + i == 1,
                        StageEventKind::NodeStarted { attempt } => {
                            &&& progress(initial.status) + i == 2
                            &&& attempt == initial.attempt + 1
                            &&& state.attempt == attempt
                        },
                    }
                }
            &&& !(initial.status is Pending) || events.len() == 0 ==> state.input_manifest_digest
                == initial.input_manifest_digest
            &&& !(state.status is Running) ==> state.attempt == initial.attempt
        },
    decreases events.len(),
{
    if events.len() > 0 && initial.replayed(events) is Ok {
        let front = events.drop_last();
        lemma_history_is_kept(initial, front);
        let before = initial.replayed(front)->Ok_0;
        lemma_event_moves_a_stage(before, events.last(), initial.replayed(events)->Ok_0);
        assert forall|i: int| 0 <= i < front.len() implies front[i] == #[trigger] events[i] by {}
        if front.len() > 0 {
            assert(events[0] == front[0]);
        }
    }
}

/// What an untouched stage can live through, and nothing else: inputs are accepted, then
/// provisioning begins, then its first attempt starts. Wherever it stops, its status and its
/// attempt say how far it came, and the inputs are those that were accepted.
pub proof fn lemma_life_of_a_stage(initial: StageState, events: Seq<StageEvent>)
    requires
        initial.untouched(),
    ensures
        initial.replayed(events) is Ok <==> {
            &&& events.len() <= 3
            &&& forall|i: int|
                #![trigger events[i]]
                0 <= i < events.len() ==> {
                    &&& events[i].stage_instance_id == initial.stage_instance_id
                    &&& events[i].prior_control_revision == i
                    &&& i == 0 ==> events[i].kind is InputsAccepted
                    &&& i == 1 ==> events[i].kind is ProvisioningBegun
                    &&& i == 2 ==> events[i].kind == StageEventKind::NodeStarted { attempt: 1 }
                }
        },
        initial.replayed(events) matches Ok(state) ==> {
            &&& state.control_revision == events.len()
            &&& state.status == (if events.len() == 0 {
                StageStatus::Pending
            } else if events.len() == 1 {
                StageStatus::Ready
            } else if events.len() == 2 {
                StageStatus::Provisioning
            } else {
                StageStatus::Running
            })
            &&& state.attempt == (if events.len() == 3 {
                1u64
            } else {
                0u64
            })
            &&& state.input_manifest_digest == (if events.len() == 0 {
                None
            } else {
                Some(events[0].kind->input_manifest_digest)
            })
            &&& state.status_reason_digest is None
        },
    decreases events.len(),
{
    lemma_untouched_is_pending(initial);
    lemma_history_is_kept(initial, events);
    if events.len() > 0 {
        let front = events.drop_last();
        lemma_life_of_a_stage(initial, front);
        assert forall|i: int| 0 <= i < front.len() implies front[i] == #[trigger] events[i] by {}
        assert(events.last() == events[events.len() - 1]);
        if initial.replayed(front) is Ok {
            lemma_refused_event(initial.replayed(front)->Ok_0, events.last());
        }
    }
}

} // verus!
