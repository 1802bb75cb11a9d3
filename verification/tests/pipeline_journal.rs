use herdr_flow::append::{
    allot_sequence, decide_pipeline_append, AppendOutcome, AppendPipelineEvent,
    AppendPipelineOutcome, AppendStageEvent, PipelineDecision,
};
use herdr_flow::digest::Sha256Digest;
use herdr_flow::error::StoreError;
use herdr_flow::identifier::{ArtifactId, EventId, MessageId, RunId, StageInstanceId};
use herdr_flow::journal::{
    decode_pipeline_event, load_pipeline_events, StoredPipelineEvent,
};
use herdr_flow::pipeline::{
    replay_pipeline, PipelineCommand, PipelineDefinitionError, PipelineEvent, PipelineEventKind,
    PipelineNodeDefinition, PipelineState, PipelineTransitionError,
};
use herdr_flow::recovery::{verify_pipeline_journal, verify_run_journal};
use herdr_flow::registration::{pipeline_inserted, row_updated, run_inserted, stage_inserted};
use herdr_flow::rows::RawPipelineEventRow;
use herdr_flow::stage::{StageCommand, StageState, MAX_CONTROL_REVISION};
use herdr_flow::store::SqliteStore;

const RUN: &str = "01ARZ3NDEKTSV4RRFFQ69G5FAV";
const STAGE: &str = "01BX5ZZKBKACTAV9WEVGEMMVRZ";
const EVENT_1: &str = "01ARZ3NDEKTSV4RRFFQ69G5FA0";
const EVENT_2: &str = "01ARZ3NDEKTSV4RRFFQ69G5FA1";
const MESSAGE_1: &str = "01ARZ3NDEKTSV4RRFFQ69G5FA3";
const MESSAGE_2: &str = "01ARZ3NDEKTSV4RRFFQ69G5FA4";

struct TestStore {
    store: SqliteStore,
    run_id: RunId,
    stage: StageState,
    initial: PipelineState,
}

fn digest(value: &[u8]) -> Sha256Digest {
    Sha256Digest::of_bytes(value)
}

fn run_id(value: &str) -> RunId {
    RunId::parse(&format!("flow_{value}")).unwrap()
}

fn event_id(value: &str) -> EventId {
    EventId::parse(&format!("evt_{value}")).unwrap()
}

fn message_id(value: &str) -> MessageId {
    MessageId::parse(&format!("msg_{value}")).unwrap()
}

fn stage_state(value: &str) -> StageState {
    StageState::new(
        StageInstanceId::parse(&format!("stage_{value}")).unwrap(),
        digest(b"component"),
        digest(b"predicate"),
    )
}

fn node(stage: StageState) -> PipelineNodeDefinition {
    PipelineNodeDefinition {
        stage,
        needs: vec![],
        required_input_artifact_ids: vec![],
    }
}

fn setup() -> TestStore {
    let mut store = SqliteStore::open("wal", 2, 1, 0).unwrap();
    let run_id = run_id(RUN);
    let stage = stage_state(STAGE);
    let initial = PipelineState::new(digest(b"pipeline"), vec![node(stage)]).unwrap();
    store
        .create_pipeline_run(&run_id, &digest(b"pipeline"))
        .unwrap();
    store.register_pipeline(&run_id, &initial).unwrap();
    TestStore {
        store,
        run_id,
        stage,
        initial,
    }
}

fn schedule(test: &TestStore) -> PipelineEvent {
    test.initial
        .decide(PipelineCommand::ScheduleStage {
            expected_revision: 0,
            stage_instance_id: test.stage.stage_instance_id,
        })
        .unwrap()
}

fn append(
    test: &mut TestStore,
    event: &str,
    message: &str,
    pipeline_event: &PipelineEvent,
) -> Result<AppendPipelineOutcome, StoreError> {
    test.store.append_pipeline_event(AppendPipelineEvent {
        run_id: &test.run_id,
        event_id: &event_id(event),
        message_id: &message_id(message),
        message_digest: &digest(b"schedule"),
        event: pipeline_event,
    })
}

fn committed(outcome: Result<AppendPipelineOutcome, StoreError>) -> StoredPipelineEvent {
    match outcome {
        Ok(AppendPipelineOutcome::Committed(stored)) => stored,
        other => panic!("{other:?}"),
    }
}

#[test]
fn pipeline_events_replay_identically_after_restart_and_retry_idempotently() {
    let mut test = setup();
    let event = test
        .initial
        .decide(PipelineCommand::ScheduleStage {
            expected_revision: 0,
            stage_instance_id: test.stage.stage_instance_id,
        })
        .unwrap();
    let event_id = event_id(EVENT_1);
    let message_id = message_id(MESSAGE_1);
    let message_digest = digest(b"schedule");
    let run_id = test.run_id;
    let request = || AppendPipelineEvent {
        run_id: &run_id,
        event_id: &event_id,
        message_id: &message_id,
        message_digest: &message_digest,
        event: &event,
    };

    assert!(matches!(
        test.store.append_pipeline_event(request()).unwrap(),
        AppendPipelineOutcome::Committed(_)
    ));
    assert!(matches!(
        test.store.append_pipeline_event(request()).unwrap(),
        AppendPipelineOutcome::Duplicate(_)
    ));
    let expected = test.initial.apply(&event).unwrap();
    assert!(test.store.load_pipeline(&test.run_id).unwrap().same(&expected));

    let reopened = test.store.snapshot();
    drop(test.store);
    assert!(reopened.load_pipeline(&test.run_id).unwrap().same(&expected));
    assert_eq!(
        reopened.load_pipeline_events(&test.run_id).unwrap().len(),
        1
    );
}

#[test]
fn registered_pipeline_rejects_independent_stage_roots() {
    let mut test = setup();

    assert!(matches!(
        test.store.register_stage(&test.run_id, &test.stage),
        Err(StoreError::PipelineStageRegistrationRequired)
    ));
}

#[test]
fn pipeline_decision_alone_writes_nothing() {
    let test = setup();
    let event = schedule(&test);
    let event_id = event_id(EVENT_1);
    let message_id = message_id(MESSAGE_1);
    let message_digest = digest(b"schedule");
    let request = AppendPipelineEvent {
        run_id: &test.run_id,
        event_id: &event_id,
        message_id: &message_id,
        message_digest: &message_digest,
        event: &event,
    };

    let rows = test.store.pipeline_append_rows(&request);
    match decide_pipeline_append(&rows, &request) {
        Ok(PipelineDecision::Commit(commit)) => {
            assert_eq!(commit.row.sequence, 1);
            assert_eq!(commit.next_event_sequence, 2);
            assert_eq!(commit.prior_control_revision, 0);
            assert!(commit.next.same(&test.initial.apply(&event).unwrap()));
        }
        other => panic!("{other:?}"),
    }
    assert!(test
        .store
        .load_pipeline(&test.run_id)
        .unwrap()
        .same(&test.initial));
    assert_eq!(test.store.pipeline_events.len(), 0);
    assert_eq!(test.store.runs[0].next_event_sequence, 1);
}

#[test]
fn refused_append_leaves_every_row_as_it_was() {
    let mut test = setup();
    let unknown = PipelineEvent {
        prior_control_revision: 0,
        kind: PipelineEventKind::StageScheduled {
            stage_instance_id: stage_state(RUN).stage_instance_id,
        },
    };
    let before = format!("{:?}", test.store);
    assert_eq!(
        append(&mut test, EVENT_1, MESSAGE_1, &unknown),
        Err(StoreError::PipelineTransition(
            PipelineTransitionError::UnknownStage
        ))
    );
    assert_eq!(format!("{:?}", test.store), before);
}

#[test]
fn recovery_rejects_tampered_pipeline_snapshots_and_global_sequence_collisions() {
    let mut test = setup();
    let event = schedule(&test);
    append(&mut test, EVENT_1, MESSAGE_1, &event).unwrap();
    test.store.pipeline_snapshots[0].control_revision = 2;
    assert!(matches!(
        test.store.load_pipeline(&test.run_id),
        Err(StoreError::PipelineSnapshotMismatch)
    ));
    test.store.pipeline_snapshots[0].control_revision = 1;

    test.store.pipeline_events[0].sequence = 2;
    assert!(matches!(
        test.store.load_pipeline(&test.run_id),
        Err(StoreError::CorruptData(_))
    ));
}

#[test]
fn registration_requires_pristine_state_and_matching_run_definition() {
    let mut store = SqliteStore::open("wal", 2, 1, 0).unwrap();
    let run_id = run_id(RUN);
    store
        .create_pipeline_run(&run_id, &digest(b"other-pipeline"))
        .unwrap();
    let stage = stage_state(STAGE);
    let initial = PipelineState::new(
        digest(b"pipeline"),
        vec![PipelineNodeDefinition {
            stage,
            needs: vec![],
            required_input_artifact_ids: vec![],
        }],
    )
    .unwrap();
    assert!(matches!(
        store.register_pipeline(&run_id, &initial),
        Err(StoreError::PipelineDefinitionMismatch)
    ));

    let mut store = SqliteStore::open("wal", 2, 1, 0).unwrap();
    store
        .create_pipeline_run(&run_id, &digest(b"pipeline"))
        .unwrap();
    let stage_id = StageInstanceId::parse(&format!("stage_{STAGE}")).unwrap();
    let stage = *initial.stage(&stage_id).unwrap();
    store.register_stage(&run_id, &stage).unwrap();
    assert!(matches!(
        store.register_pipeline(&run_id, &initial),
        Err(StoreError::PipelineRootConflict)
    ));
}

#[test]
fn pipeline_is_registered_once_and_while_pristine() {
    let mut test = setup();
    assert_eq!(
        test.store.register_pipeline(&test.run_id, &test.initial),
        Err(StoreError::PipelineAlreadyExists)
    );
    let scheduled = test.initial.apply(&schedule(&test)).unwrap();
    assert_eq!(
        test.store.register_pipeline(&test.run_id, &scheduled),
        Err(StoreError::InvalidInitialPipeline)
    );
    assert_eq!(
        test.store.register_pipeline(&run_id(STAGE), &test.initial),
        Err(StoreError::RunNotFound)
    );
    assert_eq!(
        test.store.create_pipeline_run(&test.run_id, &digest(b"x")),
        Err(StoreError::RunAlreadyExists)
    );
}

#[test]
fn run_without_a_definition_takes_no_pipeline() {
    let mut test = setup();
    let other = run_id(STAGE);
    test.store.create_run(&other).unwrap();
    assert_eq!(
        test.store.register_pipeline(&other, &test.initial),
        Err(StoreError::PipelineDefinitionMismatch)
    );
    assert!(matches!(
        test.store.load_pipeline(&other),
        Err(StoreError::PipelineNotFound)
    ));
}

#[test]
fn committed_pipeline_event_is_read_back() {
    let mut test = setup();
    let event = schedule(&test);
    let stored = committed(append(&mut test, EVENT_1, MESSAGE_1, &event));
    assert_eq!(stored.sequence, 1);
    assert_eq!(stored.event, event);
    assert_eq!(
        test.store.load_pipeline_events(&test.run_id),
        Ok(vec![stored])
    );
    assert_eq!(test.store.runs[0].next_event_sequence, 2);
    assert_eq!(test.store.event_count(&test.run_id), Ok(0));
    assert_eq!(
        append(&mut test, EVENT_2, MESSAGE_1, &event),
        Ok(AppendPipelineOutcome::Duplicate(stored))
    );
    let other = PipelineEvent {
        prior_control_revision: 1,
        ..event
    };
    assert_eq!(
        append(&mut test, EVENT_2, MESSAGE_1, &other),
        Err(StoreError::MessageIdConflict)
    );
    assert_eq!(
        append(&mut test, EVENT_1, MESSAGE_2, &event),
        Err(StoreError::EventIdConflict)
    );
    assert_eq!(
        append(&mut test, EVENT_2, MESSAGE_2, &event),
        Err(StoreError::PipelineTransition(
            PipelineTransitionError::StaleRevision
        ))
    );
    assert_eq!(
        append(&mut test, EVENT_2, MESSAGE_2, &other),
        Err(StoreError::PipelineTransition(
            PipelineTransitionError::AlreadyScheduled
        ))
    );
}

#[test]
fn identifiers_are_shared_between_stages_and_pipelines() {
    let mut test = setup();
    let event = schedule(&test);
    committed(append(&mut test, EVENT_1, MESSAGE_1, &event));

    let other_run = run_id(STAGE);
    let stage = stage_state(RUN);
    test.store.create_run(&other_run).unwrap();
    test.store.register_stage(&other_run, &stage).unwrap();
    let ready = stage
        .decide(StageCommand::AcceptInputs {
            expected_revision: 0,
            input_manifest_digest: digest(b"input"),
        })
        .unwrap();
    assert_eq!(
        test.store.append_stage_event(AppendStageEvent {
            run_id: &other_run,
            event_id: &event_id(EVENT_2),
            message_id: &message_id(MESSAGE_1),
            message_digest: &digest(b"schedule"),
            event: &ready,
        }),
        Err(StoreError::MessageIdConflict)
    );
    assert_eq!(
        test.store.append_stage_event(AppendStageEvent {
            run_id: &other_run,
            event_id: &event_id(EVENT_1),
            message_id: &message_id(MESSAGE_2),
            message_digest: &digest(b"input"),
            event: &ready,
        }),
        Err(StoreError::EventIdConflict)
    );
    assert!(matches!(
        test.store.append_stage_event(AppendStageEvent {
            run_id: &other_run,
            event_id: &event_id(EVENT_2),
            message_id: &message_id(MESSAGE_2),
            message_digest: &digest(b"input"),
            event: &ready,
        }),
        Ok(AppendOutcome::Committed(_))
    ));
    assert_eq!(
        append(&mut test, RUN, MESSAGE_2, &event),
        Err(StoreError::MessageIdConflict)
    );
}

#[test]
fn sequences_of_both_journals_are_counted_together() {
    let mut test = setup();
    let event = schedule(&test);
    committed(append(&mut test, EVENT_1, MESSAGE_1, &event));
    let rows = test.store.run_rows(&test.run_id);
    assert_eq!(verify_pipeline_journal(&rows), Ok(vec![1]));
    assert_eq!(verify_run_journal(&rows, &test.run_id), Ok(2));

    let mut stages = SqliteStore::open("wal", 2, 1, 0).unwrap();
    let stage = stage_state(RUN);
    stages.create_run(&test.run_id).unwrap();
    stages.register_stage(&test.run_id, &stage).unwrap();
    let ready = stage
        .decide(StageCommand::AcceptInputs {
            expected_revision: 0,
            input_manifest_digest: digest(b"input"),
        })
        .unwrap();
    stages
        .append_stage_event(AppendStageEvent {
            run_id: &test.run_id,
            event_id: &event_id(EVENT_2),
            message_id: &message_id(MESSAGE_2),
            message_digest: &digest(b"input"),
            event: &ready,
        })
        .unwrap();
    let mut rows = test.store.run_rows(&test.run_id);
    rows.events.push(stages.events[0].copy());
    assert_eq!(
        verify_run_journal(&rows, &test.run_id),
        Err(StoreError::CorruptData(
            "run event sequence is not contiguous"
        ))
    );

    let rows = stages.run_rows(&test.run_id);
    assert_eq!(verify_run_journal(&rows, &test.run_id), Ok(2));
    let mut rows = stages.run_rows(&test.run_id);
    rows.pipeline_events.push(test.store.pipeline_events[0].copy());
    assert_eq!(
        verify_run_journal(&rows, &test.run_id),
        Err(StoreError::PipelineNotFound)
    );
}

#[test]
fn broken_pipeline_snapshots_are_named() {
    let mut test = setup();
    test.store.runs[0].pipeline_definition_digest = None;
    assert!(matches!(
        test.store.load_pipeline(&test.run_id),
        Err(StoreError::PipelineDefinitionMismatch)
    ));
    test.store.runs[0].pipeline_definition_digest = Some("sha256:0".to_string());
    assert!(matches!(
        test.store.load_pipeline(&test.run_id),
        Err(StoreError::Digest(_))
    ));
    test.store.runs[0].pipeline_definition_digest = Some(digest(b"x").to_prefixed_string());
    assert!(matches!(
        test.store.load_pipeline(&test.run_id),
        Err(StoreError::PipelineDefinitionMismatch)
    ));
    test.store.runs[0].pipeline_definition_digest = Some(digest(b"pipeline").to_prefixed_string());
    assert!(test.store.load_pipeline(&test.run_id).is_ok());
    test.store.pipeline_snapshots[0].state = Err("expected value".to_string());
    assert!(matches!(
        test.store.load_pipeline(&test.run_id),
        Err(StoreError::Serialization(reason)) if reason == "expected value"
    ));
    let scheduled = test.initial.apply(&schedule(&test)).unwrap();
    test.store.pipeline_snapshots[0].state = Ok(scheduled.copy());
    test.store.pipeline_snapshots[0].control_revision = 1;
    assert!(matches!(
        test.store.load_pipeline(&test.run_id),
        Err(StoreError::PipelineSnapshotMismatch)
    ));
    test.store.pipeline_snapshots[0].initial_state = Ok(scheduled);
    assert!(matches!(
        test.store.load_pipeline(&test.run_id),
        Err(StoreError::PipelineSnapshotMismatch)
    ));
}

fn committed_row() -> RawPipelineEventRow {
    let mut test = setup();
    let event = schedule(&test);
    committed(append(&mut test, EVENT_1, MESSAGE_1, &event));
    test.store.pipeline_events[0].copy()
}

#[test]
fn every_column_of_a_pipeline_event_row_is_checked() {
    let corrupt = Err(StoreError::CorruptData(
        "stored pipeline event failed integrity verification",
    ));
    let good = committed_row();
    let stored = decode_pipeline_event(&good).unwrap();
    assert_eq!(load_pipeline_events(&vec![good]), Ok(vec![stored]));

    let mut row = committed_row();
    row.event_id = event_id(EVENT_2).as_str();
    assert_eq!(decode_pipeline_event(&row), corrupt);
    let mut row = committed_row();
    row.run_id = run_id(STAGE).as_str();
    assert_eq!(decode_pipeline_event(&row), corrupt);
    let mut row = committed_row();
    row.sequence = 2;
    assert_eq!(decode_pipeline_event(&row), corrupt);
    let mut row = committed_row();
    row.message_id = message_id(MESSAGE_2).as_str();
    assert_eq!(decode_pipeline_event(&row), corrupt);
    let mut row = committed_row();
    row.message_digest = digest(b"other").to_prefixed_string();
    assert_eq!(decode_pipeline_event(&row), corrupt);
    let mut row = committed_row();
    row.prior_revision = 1;
    assert_eq!(decode_pipeline_event(&row), corrupt);
    let mut row = committed_row();
    row.event_digest = digest(b"other").to_prefixed_string();
    assert_eq!(decode_pipeline_event(&row), corrupt);
    let mut row = committed_row();
    row.event_json.push(b' ');
    assert_eq!(decode_pipeline_event(&row), corrupt);
    let mut row = committed_row();
    row.record = Err("expected value".to_string());
    assert_eq!(
        decode_pipeline_event(&row),
        Err(StoreError::Serialization("expected value".to_string()))
    );
}

#[test]
fn definitions_are_checked() {
    let first = stage_state(STAGE);
    let second = stage_state(RUN);
    let mut touched = first;
    touched.attempt = 1;
    let error = |nodes| match PipelineState::new(digest(b"pipeline"), nodes) {
        Ok(_) => None,
        Err(error) => Some(error),
    };
    assert_eq!(error(vec![]), None);
    assert_eq!(error(vec![node(first), node(second)]), None);
    assert_eq!(
        error(vec![node(touched)]),
        Some(PipelineDefinitionError::StageNotPristine)
    );
    assert_eq!(
        error(vec![node(first), node(second), node(first)]),
        Some(PipelineDefinitionError::DuplicateStage)
    );
    let mut needy = node(first);
    needy.needs.push(second.stage_instance_id);
    assert_eq!(error(vec![needy]), Some(PipelineDefinitionError::UnknownNeed));
}

#[test]
fn scheduling_follows_the_definition() {
    let first = stage_state(STAGE);
    let second = stage_state(RUN);
    let third = stage_state(EVENT_1);
    let mut needy = node(second);
    needy.needs.push(first.stage_instance_id);
    let mut waiting = node(third);
    waiting.required_input_artifact_ids.push(
        ArtifactId::parse("artifact_01ARZ3NDEKTSV4RRFFQ69G5FAV").unwrap(),
    );
    let state =
        PipelineState::new(digest(b"pipeline"), vec![node(first), needy, waiting]).unwrap();
    let decide = |expected_revision, stage: &StageState| {
        state.decide(PipelineCommand::ScheduleStage {
            expected_revision,
            stage_instance_id: stage.stage_instance_id,
        })
    };
    assert_eq!(
        decide(0, &second),
        Err(PipelineTransitionError::NeedsOutstanding)
    );
    assert_eq!(
        decide(0, &third),
        Err(PipelineTransitionError::NeedsOutstanding)
    );
    assert_eq!(
        decide(0, &stage_state(MESSAGE_1)),
        Err(PipelineTransitionError::UnknownStage)
    );
    assert_eq!(
        decide(1, &first),
        Err(PipelineTransitionError::StaleRevision)
    );
    let event = decide(0, &first).unwrap();
    assert_eq!(
        event.kind,
        PipelineEventKind::StageScheduled {
            stage_instance_id: first.stage_instance_id
        }
    );
    let next = state.apply(&event).unwrap();
    assert!(next.nodes[0].scheduled && !next.nodes[1].scheduled);
    assert_eq!(next.control_revision, 1);
    assert!(!next.is_pristine() && state.is_pristine());
    assert!(replay_pipeline(&state, &vec![event]).unwrap().same(&next));
    assert!(matches!(
        replay_pipeline(&state, &vec![event, event]),
        Err(PipelineTransitionError::StaleRevision)
    ));
    let mut exhausted = state.copy();
    exhausted.control_revision = MAX_CONTROL_REVISION;
    assert!(matches!(
        exhausted.apply(&PipelineEvent {
            prior_control_revision: MAX_CONTROL_REVISION,
            ..event
        }),
        Err(PipelineTransitionError::RevisionExhausted)
    ));
}

#[test]
fn largest_sequence_stays_unused() {
    assert_eq!(allot_sequence(1), Ok(1));
    assert_eq!(
        allot_sequence(MAX_CONTROL_REVISION - 1),
        Ok(9007199254740990)
    );
    assert_eq!(
        allot_sequence(MAX_CONTROL_REVISION),
        Err(StoreError::EventSequenceExhausted)
    );
}

#[test]
fn row_counts_are_read() {
    assert_eq!(run_inserted(1), Ok(()));
    assert_eq!(run_inserted(0), Err(StoreError::RunAlreadyExists));
    assert_eq!(stage_inserted(1), Ok(()));
    assert_eq!(stage_inserted(0), Err(StoreError::StageAlreadyExists));
    assert_eq!(pipeline_inserted(1), Ok(()));
    assert_eq!(pipeline_inserted(0), Err(StoreError::PipelineAlreadyExists));
    assert_eq!(row_updated(1), Ok(()));
    assert_eq!(row_updated(0), Err(StoreError::ConcurrentUpdate));
    assert_eq!(row_updated(2), Err(StoreError::ConcurrentUpdate));
}

#[test]
fn pipelines_do_not_feel_each_other() {
    let mut test = setup();
    let other = run_id(STAGE);
    let other_pipeline =
        PipelineState::new(digest(b"pipeline"), vec![node(stage_state(RUN))]).unwrap();
    test.store
        .create_pipeline_run(&other, &digest(b"pipeline"))
        .unwrap();
    test.store
        .register_pipeline(&other, &other_pipeline)
        .unwrap();
    let event = schedule(&test);
    committed(append(&mut test, EVENT_1, MESSAGE_1, &event));
    assert!(test
        .store
        .load_pipeline(&other)
        .unwrap()
        .same(&other_pipeline));
    assert_eq!(test.store.load_pipeline_events(&other), Ok(Vec::new()));
    let stored = committed(
        test.store.append_pipeline_event(AppendPipelineEvent {
            run_id: &other,
            event_id: &event_id(EVENT_2),
            message_id: &message_id(MESSAGE_2),
            message_digest: &digest(b"schedule"),
            event: &other_pipeline
                .decide(PipelineCommand::ScheduleStage {
                    expected_revision: 0,
                    stage_instance_id: stage_state(RUN).stage_instance_id,
                })
                .unwrap(),
        }),
    );
    assert_eq!(stored.sequence, 1);
    assert!(test
        .store
        .load_pipeline(&test.run_id)
        .unwrap()
        .same(&test.initial.apply(&event).unwrap()));
}

#[test]
fn first_unused_sequence_has_to_come_next() {
    let mut test = setup();
    let rows = test.store.run_rows(&test.run_id);
    assert_eq!(verify_run_journal(&rows, &test.run_id), Ok(1));
    test.store.runs[0].next_event_sequence = 2;
    let rows = test.store.run_rows(&test.run_id);
    assert_eq!(
        verify_run_journal(&rows, &test.run_id),
        Err(StoreError::CorruptData(
            "run sequence counter does not match the journal"
        ))
    );
    test.store.runs.clear();
    let rows = test.store.run_rows(&test.run_id);
    assert_eq!(
        verify_run_journal(&rows, &test.run_id),
        Err(StoreError::RunNotFound)
    );
}

#[test]
fn initial_states_and_keys_outlast_every_operation() {
    let mut test = setup();
    let other = run_id(STAGE);
    let stage = stage_state(RUN);
    test.store.create_run(&other).unwrap();
    test.store.register_stage(&other, &stage).unwrap();
    let event = schedule(&test);
    committed(append(&mut test, EVENT_1, MESSAGE_1, &event));
    let ready = stage
        .decide(StageCommand::AcceptInputs {
            expected_revision: 0,
            input_manifest_digest: digest(b"input"),
        })
        .unwrap();
    test.store
        .append_stage_event(AppendStageEvent {
            run_id: &other,
            event_id: &event_id(EVENT_2),
            message_id: &message_id(MESSAGE_2),
            message_digest: &digest(b"input"),
            event: &ready,
        })
        .unwrap();
    assert_eq!(
        test.store.create_run(&other),
        Err(StoreError::RunAlreadyExists)
    );
    assert_eq!(
        test.store.register_stage(&other, &stage),
        Err(StoreError::StageAlreadyExists)
    );

    assert_eq!(test.store.runs.len(), 2);
    assert_eq!(test.store.stage_snapshots.len(), 1);
    assert_eq!(test.store.pipeline_snapshots.len(), 1);
    assert_eq!(test.store.stage_snapshots[0].initial_state, Ok(stage));
    assert!(test.store.pipeline_snapshots[0]
        .initial_state
        .as_ref()
        .unwrap()
        .same(&test.initial));
    assert_eq!(
        test.store.load_stage(&other, &stage.stage_instance_id),
        Ok(stage.apply(&ready).unwrap())
    );
}
