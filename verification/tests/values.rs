use herdr_flow::canonical_json::{
    CanonicalCommittedEvent, CanonicalCommittedPipelineEvent, CanonicalJsonError,
};
use herdr_flow::digest::{DigestParseError, Sha256Digest};
use herdr_flow::error::StoreError;
use herdr_flow::identifier::{
    ArtifactId, EventId, IdentifierError, MessageId, RunId, StageInstanceId,
};
use herdr_flow::pipeline::{PipelineEvent, PipelineEventKind, PipelineTransitionError};
use herdr_flow::stage::{
    replay_stage, StageCommand, StageEvent, StageEventKind, StageState, StageStatus,
    StageTransitionError, MAX_CONTROL_REVISION,
};

const RUN: &str = "01ARZ3NDEKTSV4RRFFQ69G5FAV";
const STAGE: &str = "01BX5ZZKBKACTAV9WEVGEMMVRZ";

fn digest(value: &[u8]) -> Sha256Digest {
    Sha256Digest::of_bytes(value)
}

fn stage_id() -> StageInstanceId {
    StageInstanceId::parse(&format!("stage_{STAGE}")).unwrap()
}

fn stage() -> StageState {
    StageState::new(stage_id(), digest(b"component"), digest(b"predicate"))
}

#[test]
fn identifiers_read_back() {
    for ulid in [RUN, STAGE, "00000000000000000000000000", "7ZZZZZZZZZZZZZZZZZZZZZZZZZ"] {
        let text = format!("flow_{ulid}");
        assert_eq!(RunId::parse(&text).unwrap().as_str(), text);
        let text = format!("stage_{ulid}");
        assert_eq!(StageInstanceId::parse(&text).unwrap().as_str(), text);
        let text = format!("evt_{ulid}");
        assert_eq!(EventId::parse(&text).unwrap().as_str(), text);
        let text = format!("msg_{ulid}");
        assert_eq!(MessageId::parse(&text).unwrap().as_str(), text);
        let text = format!("artifact_{ulid}");
        assert_eq!(ArtifactId::parse(&text).unwrap().as_str(), text);
    }
    assert_eq!(
        RunId::parse("flow_00000000000000000000000010").unwrap().ulid,
        32
    );
    assert_eq!(
        RunId::parse("flow_7ZZZZZZZZZZZZZZZZZZZZZZZZZ").unwrap().ulid,
        u128::MAX
    );
}

#[test]
fn malformed_identifiers_are_rejected() {
    assert_eq!(
        RunId::parse("evt_01ARZ3NDEKTSV4RRFFQ69G5FAV"),
        Err(IdentifierError::WrongPrefix)
    );
    assert_eq!(RunId::parse(""), Err(IdentifierError::WrongPrefix));
    assert_eq!(RunId::parse("flow_"), Err(IdentifierError::MalformedUlid));
    assert_eq!(
        RunId::parse("flow_01ARZ3NDEKTSV4RRFFQ69G5FA"),
        Err(IdentifierError::MalformedUlid)
    );
    assert_eq!(
        RunId::parse("flow_01ARZ3NDEKTSV4RRFFQ69G5FAVV"),
        Err(IdentifierError::MalformedUlid)
    );
    assert_eq!(
        RunId::parse("flow_01arz3ndektsv4rrffq69g5fav"),
        Err(IdentifierError::MalformedUlid)
    );
    assert_eq!(
        RunId::parse("flow_01ARZ3NDEKTSV4RRFFQ69G5FAU"),
        Err(IdentifierError::MalformedUlid)
    );
    assert_eq!(
        RunId::parse("flow_80000000000000000000000000"),
        Err(IdentifierError::MalformedUlid)
    );
}

#[test]
fn digests_are_sha_256() {
    assert_eq!(
        digest(b"").to_prefixed_string(),
        "sha256:e3b0c44298fc1c149afbf4c8996fb92427ae41e4649b934ca495991b7852b855"
    );
    assert_eq!(
        digest(b"abc").to_prefixed_string(),
        "sha256:ba7816bf8f01cfea414140de5dae2223b00361a396177a9cb410ff61f20015ad"
    );
    assert_eq!(
        Sha256Digest::parse(
            "sha256:ba7816bf8f01cfea414140de5dae2223b00361a396177a9cb410ff61f20015ad"
        ),
        Ok(digest(b"abc"))
    );
}

#[test]
fn malformed_digests_are_rejected() {
    for text in [
        "",
        "ba7816bf8f01cfea414140de5dae2223b00361a396177a9cb410ff61f20015ad",
        "sha512:ba7816bf8f01cfea414140de5dae2223b00361a396177a9cb410ff61f20015ad",
    ] {
        assert_eq!(Sha256Digest::parse(text), Err(DigestParseError::WrongPrefix));
    }
    for text in [
        "sha256:ba7816bf8f01cfea414140de5dae2223b00361a396177a9cb410ff61f20015a",
        "sha256:ba7816bf8f01cfea414140de5dae2223b00361a396177a9cb410ff61f20015add",
        "sha256:BA7816bf8f01cfea414140de5dae2223b00361a396177a9cb410ff61f20015ad",
        "sha256:ga7816bf8f01cfea414140de5dae2223b00361a396177a9cb410ff61f20015ad",
    ] {
        assert_eq!(Sha256Digest::parse(text), Err(DigestParseError::MalformedHex));
    }
}

fn record(kind: StageEventKind) -> CanonicalCommittedEvent {
    CanonicalCommittedEvent {
        event_id: EventId::parse("evt_01ARZ3NDEKTSV4RRFFQ69G5FA0").unwrap(),
        run_id: RunId::parse(&format!("flow_{RUN}")).unwrap(),
        sequence: 12,
        message_id: MessageId::parse("msg_01ARZ3NDEKTSV4RRFFQ69G5FA2").unwrap(),
        message_digest: digest(b"abc"),
        stage_instance_id: stage_id(),
        prior_control_revision: 0,
        event: StageEvent {
            stage_instance_id: stage_id(),
            prior_control_revision: 0,
            kind,
        },
    }
}

fn record_text(kind: &str) -> String {
    format!(
        "{{\"event\":{{\"kind\":{kind},\"prior_control_revision\":0,\
         \"stage_instance_id\":\"stage_01BX5ZZKBKACTAV9WEVGEMMVRZ\"}},\
         \"event_id\":\"evt_01ARZ3NDEKTSV4RRFFQ69G5FA0\",\
         \"message_digest\":\"sha256:ba7816bf8f01cfea414140de5dae2223b00361a396177a9cb410ff61f20015ad\",\
         \"message_id\":\"msg_01ARZ3NDEKTSV4RRFFQ69G5FA2\",\
         \"prior_control_revision\":0,\
         \"run_id\":\"flow_01ARZ3NDEKTSV4RRFFQ69G5FAV\",\
         \"sequence\":12,\
         \"stage_instance_id\":\"stage_01BX5ZZKBKACTAV9WEVGEMMVRZ\"}}"
    )
}

fn json(record: CanonicalCommittedEvent) -> String {
    String::from_utf8(record.to_canonical_json().unwrap()).unwrap()
}

#[test]
fn stage_records_have_one_canonical_text() {
    assert_eq!(
        json(record(StageEventKind::ProvisioningBegun)),
        record_text("\"ProvisioningBegun\"")
    );
    assert_eq!(
        json(record(StageEventKind::NodeStarted { attempt: 3 })),
        record_text("{\"NodeStarted\":{\"attempt\":3}}")
    );
    assert_eq!(
        json(record(StageEventKind::InputsAccepted {
            input_manifest_digest: digest(b"")
        })),
        record_text(
            "{\"InputsAccepted\":{\"input_manifest_digest\":\
             \"sha256:e3b0c44298fc1c149afbf4c8996fb92427ae41e4649b934ca495991b7852b855\"}}"
        )
    );
}

#[test]
fn canonical_text_is_what_a_json_reader_writes_back() {
    let bytes = record(StageEventKind::NodeStarted { attempt: 3 })
        .to_canonical_json()
        .unwrap();
    let value: serde_json::Value = serde_json::from_slice(&bytes).unwrap();
    assert_eq!(serde_json::to_vec(&value).unwrap(), bytes);
    assert_eq!(value["sequence"], 12);
    assert_eq!(value["event"]["kind"]["NodeStarted"]["attempt"], 3);
}

#[test]
fn pipeline_records_have_one_canonical_text() {
    let record = CanonicalCommittedPipelineEvent {
        event_id: EventId::parse("evt_01ARZ3NDEKTSV4RRFFQ69G5FA0").unwrap(),
        run_id: RunId::parse(&format!("flow_{RUN}")).unwrap(),
        sequence: 1,
        message_id: MessageId::parse("msg_01ARZ3NDEKTSV4RRFFQ69G5FA2").unwrap(),
        message_digest: digest(b"abc"),
        prior_control_revision: 0,
        event: PipelineEvent {
            prior_control_revision: 0,
            kind: PipelineEventKind::StageScheduled {
                stage_instance_id: stage_id(),
            },
        },
    };
    assert_eq!(
        String::from_utf8(record.to_canonical_json().unwrap()).unwrap(),
        "{\"event\":{\"kind\":{\"StageScheduled\":{\"stage_instance_id\":\
         \"stage_01BX5ZZKBKACTAV9WEVGEMMVRZ\"}},\"prior_control_revision\":0},\
         \"event_id\":\"evt_01ARZ3NDEKTSV4RRFFQ69G5FA0\",\
         \"message_digest\":\"sha256:ba7816bf8f01cfea414140de5dae2223b00361a396177a9cb410ff61f20015ad\",\
         \"message_id\":\"msg_01ARZ3NDEKTSV4RRFFQ69G5FA2\",\
         \"prior_control_revision\":0,\
         \"run_id\":\"flow_01ARZ3NDEKTSV4RRFFQ69G5FAV\",\
         \"sequence\":1}"
    );
    let mut large = record;
    large.sequence = MAX_CONTROL_REVISION;
    assert!(large.to_canonical_json().is_ok());
    large.sequence = MAX_CONTROL_REVISION + 1;
    assert_eq!(
        large.to_canonical_json(),
        Err(CanonicalJsonError::NumberOutOfRange)
    );
}

#[test]
fn numbers_that_json_cannot_hold_are_rejected() {
    let mut large = record(StageEventKind::NodeStarted {
        attempt: MAX_CONTROL_REVISION,
    });
    assert!(large.to_canonical_json().is_ok());
    large.sequence = MAX_CONTROL_REVISION + 1;
    assert_eq!(
        large.to_canonical_json(),
        Err(CanonicalJsonError::NumberOutOfRange)
    );
    let large = record(StageEventKind::NodeStarted { attempt: u64::MAX });
    assert_eq!(
        large.to_canonical_json(),
        Err(CanonicalJsonError::NumberOutOfRange)
    );
}

#[test]
fn stage_moves_along_its_lifecycle() {
    let pending = stage();
    assert!(pending.is_pristine());
    let accepted = pending
        .decide(StageCommand::AcceptInputs {
            expected_revision: 0,
            input_manifest_digest: digest(b"input"),
        })
        .unwrap();
    let ready = pending.apply(&accepted).unwrap();
    assert_eq!(ready.status, StageStatus::Ready);
    assert_eq!(ready.control_revision, 1);
    assert_eq!(ready.input_manifest_digest, Some(digest(b"input")));
    let begun = ready
        .decide(StageCommand::BeginProvisioning {
            expected_revision: 1,
        })
        .unwrap();
    let provisioning = ready.apply(&begun).unwrap();
    assert_eq!(provisioning.status, StageStatus::Provisioning);
    let started = StageEvent {
        stage_instance_id: stage_id(),
        prior_control_revision: 2,
        kind: StageEventKind::NodeStarted { attempt: 1 },
    };
    let running = provisioning.apply(&started).unwrap();
    assert_eq!(running.status, StageStatus::Running);
    assert_eq!(running.attempt, 1);
    assert!(!running.is_pristine());
    assert_eq!(
        replay_stage(&pending, &vec![accepted, begun, started]),
        Ok(running)
    );
    assert_eq!(replay_stage(&ready, &vec![begun, started]), Ok(running));
    assert_eq!(replay_stage(&pending, &vec![]), Ok(pending));
    assert_eq!(
        ready.apply(&accepted),
        Err(StageTransitionError::StaleRevision)
    );
    assert_eq!(
        replay_stage(&pending, &vec![accepted, accepted, begun]),
        Err(StageTransitionError::StaleRevision)
    );
}

#[test]
fn stage_refuses_what_does_not_follow() {
    let pending = stage();
    assert_eq!(
        pending.decide(StageCommand::BeginProvisioning {
            expected_revision: 0
        }),
        Err(StageTransitionError::InvalidTransition)
    );
    assert_eq!(
        pending.decide(StageCommand::BeginProvisioning {
            expected_revision: 1
        }),
        Err(StageTransitionError::StaleRevision)
    );
    let event = StageEvent {
        stage_instance_id: StageInstanceId::parse(&format!("stage_{RUN}")).unwrap(),
        prior_control_revision: 0,
        kind: StageEventKind::ProvisioningBegun,
    };
    assert_eq!(pending.apply(&event), Err(StageTransitionError::WrongStage));
    let mut last = pending;
    last.control_revision = MAX_CONTROL_REVISION;
    assert_eq!(
        last.apply(&StageEvent {
            stage_instance_id: stage_id(),
            prior_control_revision: MAX_CONTROL_REVISION,
            kind: StageEventKind::InputsAccepted {
                input_manifest_digest: digest(b"input")
            },
        }),
        Err(StageTransitionError::RevisionExhausted)
    );
    let mut provisioning = pending;
    provisioning.status = StageStatus::Provisioning;
    for attempt in [0, 2, u64::MAX] {
        assert_eq!(
            provisioning.apply(&StageEvent {
                stage_instance_id: stage_id(),
                prior_control_revision: 0,
                kind: StageEventKind::NodeStarted { attempt },
            }),
            Err(StageTransitionError::InvalidTransition)
        );
    }
}

#[test]
fn errors_speak_for_themselves() {
    assert_eq!(
        StoreError::IncompatiblePragma("synchronous").message(),
        "SQLite synchronous pragma is incompatible with the durability contract"
    );
    for (error, message) in [
        (StoreError::RunAlreadyExists, "run already exists"),
        (StoreError::RunNotFound, "run does not exist"),
        (StoreError::StageAlreadyExists, "stage already exists"),
        (
            StoreError::InvalidInitialStage,
            "stage bootstrap state is not a pristine pending state",
        ),
        (StoreError::StageNotFound, "stage does not exist"),
        (StoreError::StageRunMismatch, "stage belongs to another run"),
        (
            StoreError::MessageIdConflict,
            "message ID was reused with different content",
        ),
        (StoreError::EventIdConflict, "event ID already exists"),
        (
            StoreError::ConcurrentUpdate,
            "snapshot compare-and-swap failed",
        ),
        (
            StoreError::EventSequenceExhausted,
            "event sequence is exhausted",
        ),
        (
            StoreError::SnapshotMismatch,
            "stage snapshot does not match deterministic event replay",
        ),
        (
            StoreError::CorruptData("negative SQLite integer"),
            "negative SQLite integer",
        ),
        (
            StoreError::StageTransition(StageTransitionError::StaleRevision),
            "control revision is not current",
        ),
        (
            StoreError::PipelineTransition(PipelineTransitionError::UnknownStage),
            "pipeline has no such stage",
        ),
    ] {
        assert_eq!(error.message(), message);
    }
    assert_eq!(
        StoreError::Digest(DigestParseError::MalformedHex).message(),
        DigestParseError::MalformedHex.message()
    );
    assert_eq!(
        StoreError::Identifier(IdentifierError::WrongPrefix).message(),
        IdentifierError::WrongPrefix.message()
    );
    assert_eq!(
        StoreError::Canonicalization(CanonicalJsonError::NumberOutOfRange).message(),
        CanonicalJsonError::NumberOutOfRange.message()
    );
}
