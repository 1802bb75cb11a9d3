use herdr_flow::append::{
    decide_stage_append, AppendOutcome, AppendStageEvent, StageDecision,
};
use herdr_flow::digest::Sha256Digest;
use herdr_flow::error::StoreError;
use herdr_flow::identifier::{EventId, MessageId, RunId, StageInstanceId};
use herdr_flow::journal::{decode_event_row, load_events, StoredStageEvent};
use herdr_flow::recovery::verify_run_journal;
use herdr_flow::rows::RawEventRow;
use herdr_flow::stage::{
    replay_stage, StageCommand, StageEvent, StageEventKind, StageState, StageTransitionError,
    MAX_CONTROL_REVISION,
};
use herdr_flow::store::SqliteStore;

const RUN_ULID: &str = "01ARZ3NDEKTSV4RRFFQ69G5FAV";
const STAGE_ULID: &str = "01BX5ZZKBKACTAV9WEVGEMMVRZ";
const EVENT_ULID_1: &str = "01ARZ3NDEKTSV4RRFFQ69G5FA0";
const EVENT_ULID_2: &str = "01ARZ3NDEKTSV4RRFFQ69G5FA1";
const MESSAGE_ULID_1: &str = "01ARZ3NDEKTSV4RRFFQ69G5FA2";
const MESSAGE_ULID_2: &str = "01ARZ3NDEKTSV4RRFFQ69G5FA3";

struct TestStore {
    store: SqliteStore,
    run_id: RunId,
    initial: StageState,
}

fn digest(value: &[u8]) -> Sha256Digest {
    Sha256Digest::of_bytes(value)
}

fn run_id(value: &str) -> RunId {
    RunId::parse(&format!("flow_{value}")).unwrap()
}

fn stage_id(value: &str) -> StageInstanceId {
    StageInstanceId::parse(&format!("stage_{value}")).unwrap()
}

fn event_id(value: &str) -> EventId {
    EventId::parse(&format!("evt_{value}")).unwrap()
}

fn message_id(value: &str) -> MessageId {
    MessageId::parse(&format!("msg_{value}")).unwrap()
}

fn test_store() -> TestStore {
    let mut store = SqliteStore::open("wal", 2, 1, 0).unwrap();
    let run_id = run_id(RUN_ULID);
    let initial = StageState::new(
        stage_id(STAGE_ULID),
        digest(b"component"),
        digest(b"predicate"),
    );
    store.create_run(&run_id).unwrap();
    store.register_stage(&run_id, &initial).unwrap();
    TestStore {
        store,
        run_id,
        initial,
    }
}

fn ready_event(state: &StageState, input: &[u8]) -> StageEvent {
    state
        .decide(StageCommand::AcceptInputs {
            expected_revision: state.control_revision,
            input_manifest_digest: digest(input),
        })
        .unwrap()
}

fn append(
    test: &mut TestStore,
    event: &str,
    message: &str,
    content: &[u8],
    stage_event: &StageEvent,
) -> Result<AppendOutcome, StoreError> {
    test.store.append_stage_event(AppendStageEvent {
        run_id: &test.run_id,
        event_id: &event_id(event),
        message_id: &message_id(message),
        message_digest: &digest(content),
        event: stage_event,
    })
}

fn committed(outcome: Result<AppendOutcome, StoreError>) -> StoredStageEvent {
    match outcome {
        Ok(AppendOutcome::Committed(stored)) => stored,
        other => panic!("{other:?}"),
    }
}

#[test]
fn commits_events_and_snapshots_atomically_and_replays_after_restart() {
    let mut test = test_store();
    let ready = ready_event(&test.initial, b"input");
    let event_id_1 = event_id(EVENT_ULID_1);
    let message_id_1 = message_id(MESSAGE_ULID_1);
    let outcome = test
        .store
        .append_stage_event(AppendStageEvent {
            run_id: &test.run_id,
            event_id: &event_id_1,
            message_id: &message_id_1,
            message_digest: &digest(b"message-1"),
            event: &ready,
        })
        .unwrap();
    assert!(matches!(outcome, AppendOutcome::Committed(_)));

    let ready_state = test
        .store
        .load_stage(&test.run_id, &test.initial.stage_instance_id)
        .unwrap();
    let provisioning = ready_state
        .decide(StageCommand::BeginProvisioning {
            expected_revision: ready_state.control_revision,
        })
        .unwrap();
    test.store
        .append_stage_event(AppendStageEvent {
            run_id: &test.run_id,
            event_id: &event_id(EVENT_ULID_2),
            message_id: &message_id(MESSAGE_ULID_2),
            message_digest: &digest(b"message-2"),
            event: &provisioning,
        })
        .unwrap();

    let reopened = test.store.snapshot();
    drop(test.store);
    let snapshot = reopened
        .load_stage(&test.run_id, &test.initial.stage_instance_id)
        .unwrap();
    let stored = reopened
        .load_stage_events(&test.run_id, &test.initial.stage_instance_id)
        .unwrap();
    let events: Vec<StageEvent> = stored.iter().map(|stored| stored.event).collect();

    assert_eq!(stored[0].sequence, 1);
    assert_eq!(stored[1].sequence, 2);
    assert_eq!(replay_stage(&test.initial, &events).unwrap(), snapshot);
    assert_eq!(snapshot.control_revision, 2);
}

#[test]
fn snapshot_is_not_felt_by_a_later_append() {
    let mut test = test_store();
    let event = ready_event(&test.initial, b"input");
    let reader = test.store.snapshot();
    assert_eq!(
        verify_run_journal(&reader.run_rows(&test.run_id), &test.run_id),
        Ok(1)
    );
    append(&mut test, EVENT_ULID_1, MESSAGE_ULID_1, b"message-1", &event).unwrap();

    assert_eq!(
        reader.load_stage(&test.run_id, &test.initial.stage_instance_id),
        Ok(test.initial)
    );
    assert_eq!(
        test.store
            .load_stage(&test.run_id, &test.initial.stage_instance_id)
            .unwrap()
            .control_revision,
        1
    );
}

#[test]
fn exact_message_retry_is_idempotent() {
    let mut test = test_store();
    let event = ready_event(&test.initial, b"input");
    let event_id = event_id(EVENT_ULID_1);
    let message_id = message_id(MESSAGE_ULID_1);
    let message_digest = digest(b"message-1");
    let run_id = test.run_id;
    let request = || AppendStageEvent {
        run_id: &run_id,
        event_id: &event_id,
        message_id: &message_id,
        message_digest: &message_digest,
        event: &event,
    };

    assert!(matches!(
        test.store.append_stage_event(request()).unwrap(),
        AppendOutcome::Committed(_)
    ));
    assert!(matches!(
        test.store.append_stage_event(request()).unwrap(),
        AppendOutcome::Duplicate(_)
    ));
    assert_eq!(test.store.event_count(&test.run_id).unwrap(), 1);
    assert_eq!(
        test.store
            .load_stage(&test.run_id, &test.initial.stage_instance_id)
            .unwrap()
            .control_revision,
        1
    );
}

#[test]
fn reused_message_id_with_different_content_is_rejected() {
    let mut test = test_store();
    let first = ready_event(&test.initial, b"first");
    let second = ready_event(&test.initial, b"second");
    let event_id = event_id(EVENT_ULID_1);
    let message_id = message_id(MESSAGE_ULID_1);
    test.store
        .append_stage_event(AppendStageEvent {
            run_id: &test.run_id,
            event_id: &event_id,
            message_id: &message_id,
            message_digest: &digest(b"first-message"),
            event: &first,
        })
        .unwrap();

    assert!(matches!(
        test.store.append_stage_event(AppendStageEvent {
            run_id: &test.run_id,
            event_id: &event_id,
            message_id: &message_id,
            message_digest: &digest(b"second-message"),
            event: &second,
        }),
        Err(StoreError::MessageIdConflict)
    ));
    assert_eq!(test.store.event_count(&test.run_id).unwrap(), 1);
}

#[test]
fn message_retry_requires_the_same_authenticated_message_digest() {
    let mut test = test_store();
    let event = ready_event(&test.initial, b"input");
    let event_id = event_id(EVENT_ULID_1);
    let message_id = message_id(MESSAGE_ULID_1);
    test.store
        .append_stage_event(AppendStageEvent {
            run_id: &test.run_id,
            event_id: &event_id,
            message_id: &message_id,
            message_digest: &digest(b"original-message"),
            event: &event,
        })
        .unwrap();

    assert!(matches!(
        test.store.append_stage_event(AppendStageEvent {
            run_id: &test.run_id,
            event_id: &event_id,
            message_id: &message_id,
            message_digest: &digest(b"different-message"),
            event: &event,
        }),
        Err(StoreError::MessageIdConflict)
    ));
}

#[test]
fn decision_alone_writes_nothing() {
    let test = test_store();
    let event = ready_event(&test.initial, b"input");
    let event_id = event_id(EVENT_ULID_1);
    let message_id = message_id(MESSAGE_ULID_1);
    let message_digest = digest(b"message-1");
    let request = AppendStageEvent {
        run_id: &test.run_id,
        event_id: &event_id,
        message_id: &message_id,
        message_digest: &message_digest,
        event: &event,
    };

    let rows = test.store.stage_append_rows(&request);
    match decide_stage_append(&rows, &request) {
        Ok(StageDecision::Commit(commit)) => {
            assert_eq!(commit.row.sequence, 1);
            assert_eq!(commit.next_event_sequence, 2);
            assert_eq!(commit.prior, test.initial);
            assert_eq!(commit.next, test.initial.apply(&event).unwrap());
            assert_eq!(commit.stored.event, event);
        }
        other => panic!("{other:?}"),
    }
    assert_eq!(test.store.event_count(&test.run_id), Ok(0));
    assert_eq!(test.store.runs[0].next_event_sequence, 1);
    assert_eq!(
        test.store
            .load_stage(&test.run_id, &test.initial.stage_instance_id),
        Ok(test.initial)
    );
}

#[test]
fn invalid_transition_rolls_back_event_and_snapshot() {
    let mut test = test_store();
    let invalid = StageEvent {
        stage_instance_id: test.initial.stage_instance_id,
        prior_control_revision: 0,
        kind: StageEventKind::NodeStarted { attempt: 1 },
    };

    assert!(matches!(
        append(
            &mut test,
            EVENT_ULID_1,
            MESSAGE_ULID_1,
            b"invalid-message",
            &invalid
        ),
        Err(StoreError::StageTransition(_))
    ));
    assert_eq!(test.store.event_count(&test.run_id).unwrap(), 0);
    assert_eq!(
        test.store
            .load_stage(&test.run_id, &test.initial.stage_instance_id)
            .unwrap(),
        test.initial
    );
}

#[test]
fn replay_detects_tampered_snapshots_and_events() {
    let mut test = test_store();
    let event = ready_event(&test.initial, b"input");
    append(&mut test, EVENT_ULID_1, MESSAGE_ULID_1, b"message-1", &event).unwrap();

    test.store.stage_snapshots[0].state = Ok(test.initial);
    assert!(matches!(
        test.store
            .load_stage(&test.run_id, &test.initial.stage_instance_id),
        Err(StoreError::SnapshotMismatch)
    ));

    let correct_state = test.initial.apply(&event).unwrap();
    test.store.stage_snapshots[0].state = Ok(correct_state);
    test.store.events[0].event_digest = digest(b"tampered").to_prefixed_string();
    assert!(matches!(
        test.store
            .load_stage(&test.run_id, &test.initial.stage_instance_id),
        Err(StoreError::CorruptData(_))
    ));
}

#[test]
fn recovery_rejects_index_and_run_sequence_corruption() {
    let mut test = test_store();
    let event = ready_event(&test.initial, b"input");
    append(&mut test, EVENT_ULID_1, MESSAGE_ULID_1, b"message-1", &event).unwrap();

    test.store.events[0].sequence = 2;
    assert!(matches!(
        test.store
            .load_stage(&test.run_id, &test.initial.stage_instance_id),
        Err(StoreError::CorruptData(_))
    ));

    test.store.events[0].sequence = 1;
    test.store.runs[0].next_event_sequence = 3;
    assert!(matches!(
        test.store
            .load_stage(&test.run_id, &test.initial.stage_instance_id),
        Err(StoreError::CorruptData(
            "run sequence counter does not match the journal"
        ))
    ));
}

#[test]
fn rejects_non_pristine_stage_bootstrap() {
    let mut test = test_store();
    let mut invalid = StageState::new(
        stage_id(RUN_ULID),
        digest(b"component"),
        digest(b"predicate"),
    );
    invalid.status_reason_digest = Some(digest(b"impossible-pending-reason"));

    assert!(matches!(
        test.store.register_stage(&test.run_id, &invalid),
        Err(StoreError::InvalidInitialStage)
    ));
}

#[test]
fn event_ids_are_globally_unique() {
    let mut test = test_store();
    let ready = ready_event(&test.initial, b"input");
    let shared_event_id = event_id(EVENT_ULID_1);
    test.store
        .append_stage_event(AppendStageEvent {
            run_id: &test.run_id,
            event_id: &shared_event_id,
            message_id: &message_id(MESSAGE_ULID_1),
            message_digest: &digest(b"message-1"),
            event: &ready,
        })
        .unwrap();
    let ready_state = test
        .store
        .load_stage(&test.run_id, &test.initial.stage_instance_id)
        .unwrap();
    let provisioning = ready_state
        .decide(StageCommand::BeginProvisioning {
            expected_revision: 1,
        })
        .unwrap();

    assert!(matches!(
        test.store.append_stage_event(AppendStageEvent {
            run_id: &test.run_id,
            event_id: &shared_event_id,
            message_id: &message_id(MESSAGE_ULID_2),
            message_digest: &digest(b"message-2"),
            event: &provisioning,
        }),
        Err(StoreError::EventIdConflict)
    ));
}

#[test]
fn committed_event_is_read_back_with_its_state() {
    let mut test = test_store();
    let ready = ready_event(&test.initial, b"input");
    let stored = committed(append(
        &mut test,
        EVENT_ULID_1,
        MESSAGE_ULID_1,
        b"message-1",
        &ready,
    ));
    assert_eq!(stored.sequence, 1);
    assert_eq!(stored.event, ready);
    assert_eq!(stored.event_id, event_id(EVENT_ULID_1));
    assert_eq!(stored.message_id, message_id(MESSAGE_ULID_1));
    assert_eq!(stored.message_digest, digest(b"message-1"));
    assert_eq!(
        stored.event_digest,
        digest(&test.store.events[0].event_json)
    );
    assert_eq!(
        test.store
            .load_stage(&test.run_id, &test.initial.stage_instance_id),
        Ok(test.initial.apply(&ready).unwrap())
    );
    assert_eq!(
        test.store
            .load_stage_events(&test.run_id, &test.initial.stage_instance_id),
        Ok(vec![stored])
    );
    assert_eq!(test.store.runs[0].next_event_sequence, 2);
}

#[test]
fn late_retry_gets_the_first_event_whatever_identifier_it_proposes() {
    let mut test = test_store();
    let ready = ready_event(&test.initial, b"input");
    let first = committed(append(
        &mut test,
        EVENT_ULID_1,
        MESSAGE_ULID_1,
        b"message-1",
        &ready,
    ));
    let state = test.initial.apply(&ready).unwrap();
    let provisioning = state
        .decide(StageCommand::BeginProvisioning {
            expected_revision: 1,
        })
        .unwrap();
    committed(append(
        &mut test,
        EVENT_ULID_2,
        MESSAGE_ULID_2,
        b"message-2",
        &provisioning,
    ));
    assert_eq!(
        append(
            &mut test,
            EVENT_ULID_2,
            MESSAGE_ULID_1,
            b"message-1",
            &ready
        ),
        Ok(AppendOutcome::Duplicate(first))
    );
    assert_eq!(test.store.event_count(&test.run_id), Ok(2));
}

#[test]
fn stages_and_runs_do_not_feel_each_other() {
    let mut test = test_store();
    let other_run = run_id(STAGE_ULID);
    let sibling = StageState::new(
        stage_id(RUN_ULID),
        digest(b"component"),
        digest(b"predicate"),
    );
    let stranger = StageState::new(
        stage_id(EVENT_ULID_1),
        digest(b"component"),
        digest(b"predicate"),
    );
    test.store.create_run(&other_run).unwrap();
    test.store.register_stage(&test.run_id, &sibling).unwrap();
    test.store.register_stage(&other_run, &stranger).unwrap();
    let ready = ready_event(&test.initial, b"input");
    committed(append(
        &mut test,
        EVENT_ULID_1,
        MESSAGE_ULID_1,
        b"message-1",
        &ready,
    ));
    assert_eq!(
        test.store.load_stage(&test.run_id, &sibling.stage_instance_id),
        Ok(sibling)
    );
    assert_eq!(
        test.store.load_stage(&other_run, &stranger.stage_instance_id),
        Ok(stranger)
    );
    assert_eq!(test.store.event_count(&other_run), Ok(0));

    let ready = ready_event(&stranger, b"input");
    let stored = committed(test.store.append_stage_event(AppendStageEvent {
        run_id: &other_run,
        event_id: &event_id(EVENT_ULID_2),
        message_id: &message_id(MESSAGE_ULID_2),
        message_digest: &digest(b"message-2"),
        event: &ready,
    }));
    assert_eq!(stored.sequence, 1);

    let ready = ready_event(&sibling, b"input");
    let stored = committed(append(
        &mut test,
        RUN_ULID,
        RUN_ULID,
        b"message-3",
        &ready,
    ));
    assert_eq!(stored.sequence, 2);
}

#[test]
fn message_of_another_run_is_a_conflict() {
    let mut test = test_store();
    let ready = ready_event(&test.initial, b"input");
    committed(append(
        &mut test,
        EVENT_ULID_1,
        MESSAGE_ULID_1,
        b"message-1",
        &ready,
    ));
    let other_run = run_id(STAGE_ULID);
    test.store.create_run(&other_run).unwrap();
    assert_eq!(
        test.store.append_stage_event(AppendStageEvent {
            run_id: &other_run,
            event_id: &event_id(EVENT_ULID_2),
            message_id: &message_id(MESSAGE_ULID_1),
            message_digest: &digest(b"message-1"),
            event: &ready,
        }),
        Err(StoreError::MessageIdConflict)
    );
}

#[test]
fn runs_and_stages_are_made_once() {
    let mut test = test_store();
    assert_eq!(
        test.store.create_run(&test.run_id),
        Err(StoreError::RunAlreadyExists)
    );
    assert_eq!(
        test.store.register_stage(&test.run_id, &test.initial),
        Err(StoreError::StageAlreadyExists)
    );
    let other_run = run_id(STAGE_ULID);
    assert_eq!(
        test.store.register_stage(&other_run, &test.initial),
        Err(StoreError::RunNotFound)
    );
    test.store.create_run(&other_run).unwrap();
    assert_eq!(
        test.store.register_stage(&other_run, &test.initial),
        Err(StoreError::StageAlreadyExists)
    );
}

#[test]
fn missing_rows_are_named() {
    let mut test = test_store();
    let other_run = run_id(STAGE_ULID);
    let stage = test.initial.stage_instance_id;
    assert_eq!(
        test.store.load_stage(&other_run, &stage),
        Err(StoreError::RunNotFound)
    );
    assert_eq!(
        test.store.load_stage_events(&other_run, &stage),
        Err(StoreError::RunNotFound)
    );
    assert_eq!(test.store.event_count(&other_run), Ok(0));
    test.store.create_run(&other_run).unwrap();
    assert_eq!(
        test.store.load_stage(&other_run, &stage),
        Err(StoreError::StageRunMismatch)
    );
    assert_eq!(
        test.store.load_stage(&test.run_id, &stage_id(RUN_ULID)),
        Err(StoreError::StageNotFound)
    );
    assert_eq!(
        test.store.load_stage_events(&other_run, &stage),
        Ok(Vec::new())
    );
}

#[test]
fn last_sequence_is_not_given_out() {
    let mut test = test_store();
    let ready = ready_event(&test.initial, b"input");
    let event_id = event_id(EVENT_ULID_1);
    let message_id = message_id(MESSAGE_ULID_1);
    let message_digest = digest(b"message-1");
    let run = test.run_id;
    let request = AppendStageEvent {
        run_id: &run,
        event_id: &event_id,
        message_id: &message_id,
        message_digest: &message_digest,
        event: &ready,
    };
    test.store.runs[0].next_event_sequence = MAX_CONTROL_REVISION as i64;
    assert_eq!(
        test.store.append_stage_event(request),
        Err(StoreError::CorruptData(
            "run sequence counter does not match the journal"
        ))
    );
    test.store.runs[0].next_event_sequence = -1;
    assert_eq!(
        test.store.load_stage(&run, &test.initial.stage_instance_id),
        Err(StoreError::CorruptData("negative SQLite integer"))
    );
}

#[test]
fn unreadable_snapshots_and_wrong_revisions_are_noticed() {
    let mut test = test_store();
    let stage = test.initial.stage_instance_id;
    test.store.stage_snapshots[0].control_revision = 1;
    assert_eq!(
        test.store.load_stage(&test.run_id, &stage),
        Err(StoreError::SnapshotMismatch)
    );
    test.store.stage_snapshots[0].control_revision = -1;
    assert_eq!(
        test.store.load_stage(&test.run_id, &stage),
        Err(StoreError::CorruptData("negative SQLite integer"))
    );
    test.store.stage_snapshots[0].control_revision = 0;
    test.store.stage_snapshots[0].initial_state = Err("EOF while parsing".to_string());
    assert_eq!(
        test.store.load_stage(&test.run_id, &stage),
        Err(StoreError::Serialization("EOF while parsing".to_string()))
    );
    test.store.stage_snapshots[0].state = Err("expected value".to_string());
    assert_eq!(
        test.store.load_stage(&test.run_id, &stage),
        Err(StoreError::Serialization("EOF while parsing".to_string()))
    );
    test.store.stage_snapshots[0].initial_state = Ok(test.initial);
    assert_eq!(
        test.store.load_stage(&test.run_id, &stage),
        Err(StoreError::Serialization("expected value".to_string()))
    );
    test.store.stage_snapshots[0].state = Ok(test.initial);
    test.store.stage_snapshots[0].initial_state = Ok(StageState::new(
        stage_id(RUN_ULID),
        digest(b"component"),
        digest(b"predicate"),
    ));
    assert_eq!(
        test.store.load_stage(&test.run_id, &stage),
        Err(StoreError::SnapshotMismatch)
    );
}

#[test]
fn journal_that_does_not_replay_is_noticed() {
    let mut test = test_store();
    let stage = test.initial.stage_instance_id;
    let ready = ready_event(&test.initial, b"input");
    committed(append(
        &mut test,
        EVENT_ULID_1,
        MESSAGE_ULID_1,
        b"message-1",
        &ready,
    ));
    let state = test.initial.apply(&ready).unwrap();
    test.store.stage_snapshots[0].initial_state = Ok(state);
    assert_eq!(
        test.store.load_stage(&test.run_id, &stage),
        Err(StoreError::StageTransition(
            StageTransitionError::StaleRevision
        ))
    );
}

fn committed_row() -> RawEventRow {
    let mut test = test_store();
    let ready = ready_event(&test.initial, b"input");
    committed(append(
        &mut test,
        EVENT_ULID_1,
        MESSAGE_ULID_1,
        b"message-1",
        &ready,
    ));
    test.store.events[0].copy()
}

#[test]
fn every_column_of_an_event_row_is_checked() {
    let corrupt = Err(StoreError::CorruptData(
        "stored committed event failed integrity verification",
    ));
    assert!(decode_event_row(&committed_row()).is_ok());

    let mut row = committed_row();
    row.event_id = event_id(EVENT_ULID_2).as_str();
    assert_eq!(decode_event_row(&row), corrupt);
    let mut row = committed_row();
    row.run_id = run_id(STAGE_ULID).as_str();
    assert_eq!(decode_event_row(&row), corrupt);
    let mut row = committed_row();
    row.sequence = 7;
    assert_eq!(decode_event_row(&row), corrupt);
    let mut row = committed_row();
    row.message_id = message_id(MESSAGE_ULID_2).as_str();
    assert_eq!(decode_event_row(&row), corrupt);
    let mut row = committed_row();
    row.message_digest = digest(b"message-2").to_prefixed_string();
    assert_eq!(decode_event_row(&row), corrupt);
    let mut row = committed_row();
    row.stage_instance_id = stage_id(RUN_ULID).as_str();
    assert_eq!(decode_event_row(&row), corrupt);
    let mut row = committed_row();
    row.prior_control_revision = 1;
    assert_eq!(decode_event_row(&row), corrupt);
    let mut row = committed_row();
    row.event_json.push(b' ');
    assert_eq!(decode_event_row(&row), corrupt);
    let mut row = committed_row();
    row.event_json[2] = b'E';
    assert_eq!(decode_event_row(&row), corrupt);
}

#[test]
fn unreadable_columns_of_an_event_row_are_named() {
    let mut row = committed_row();
    row.event_id = "msg_01ARZ3NDEKTSV4RRFFQ69G5FA2".to_string();
    assert!(matches!(
        decode_event_row(&row),
        Err(StoreError::Identifier(_))
    ));
    let mut row = committed_row();
    row.message_digest = "sha256:".to_string();
    assert!(matches!(decode_event_row(&row), Err(StoreError::Digest(_))));
    let mut row = committed_row();
    row.sequence = -1;
    assert_eq!(
        decode_event_row(&row),
        Err(StoreError::CorruptData("negative SQLite integer"))
    );
    let mut row = committed_row();
    let error = serde_json::from_slice::<serde_json::Value>(b"{").unwrap_err();
    row.record = Err(error.to_string());
    let refused = decode_event_row(&row);
    assert_eq!(refused, Err(StoreError::Serialization(error.to_string())));
    assert_eq!(refused.unwrap_err().message(), error.to_string());
    let mut row = committed_row();
    if let Ok(record) = &mut row.record {
        record.sequence = MAX_CONTROL_REVISION + 1;
    }
    assert!(matches!(
        decode_event_row(&row),
        Err(StoreError::Canonicalization(_))
    ));
}

#[test]
fn events_load_up_to_the_first_broken_row() {
    let good = committed_row();
    let mut broken = committed_row();
    broken.sequence = -1;
    let stored = decode_event_row(&good).unwrap();
    assert_eq!(load_events(&vec![good.copy()]), Ok(vec![stored]));
    assert_eq!(load_events(&Vec::new()), Ok(Vec::new()));
    assert_eq!(
        load_events(&vec![good, broken]),
        Err(StoreError::CorruptData("negative SQLite integer"))
    );
}

#[test]
fn rows_out_of_order_are_read_in_order() {
    let mut test = test_store();
    let ready = ready_event(&test.initial, b"input");
    committed(append(
        &mut test,
        EVENT_ULID_1,
        MESSAGE_ULID_1,
        b"message-1",
        &ready,
    ));
    let state = test.initial.apply(&ready).unwrap();
    let provisioning = state
        .decide(StageCommand::BeginProvisioning {
            expected_revision: 1,
        })
        .unwrap();
    committed(append(
        &mut test,
        EVENT_ULID_2,
        MESSAGE_ULID_2,
        b"message-2",
        &provisioning,
    ));
    test.store.events.reverse();
    let events = test
        .store
        .load_stage_events(&test.run_id, &test.initial.stage_instance_id)
        .unwrap();
    assert_eq!(events[0].sequence, 1);
    assert_eq!(events[1].sequence, 2);

    test.store.events.remove(1);
    assert_eq!(
        test.store
            .load_stage(&test.run_id, &test.initial.stage_instance_id),
        Err(StoreError::CorruptData(
            "run event sequence is not contiguous"
        ))
    );
}
