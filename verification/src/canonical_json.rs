//! The committed form of an event: the record that a journal keeps, and its canonical JSON.
//!
//! Canonical JSON has no insignificant white space, the members of an object in ascending
//! order of their names, and only numbers that every reader holds exactly. So a record has
//! one text, and the digest of that text stands for the record.

use vstd::prelude::*;
use vstd::utf8::{encode_utf8, encode_utf8_decode_utf8};

use crate::digest::Sha256Digest;
use crate::identifier::{EventId, MessageId, RunId, StageInstanceId};
use crate::numeral::{append_decimal, decimal, lemma_split_decimal, lemma_split_end};
use crate::pipeline::{PipelineEvent, PipelineEventKind};
use crate::stage::{StageEvent, StageEventKind, MAX_CONTROL_REVISION};

verus! {

/// Why a record has no canonical JSON.
#[derive(Clone, Copy, Debug, PartialEq, Eq, Structural)]
pub enum CanonicalJsonError {
    /// A number is larger than every JSON reader holds exactly.
    NumberOutOfRange,
}

impl CanonicalJsonError {
    /// What the error says to a reader.
    pub open spec fn text(self) -> Seq<char> {
        "number is outside the range of canonical JSON"@
    }

    /// What the error says to a reader.
    pub fn message(&self) -> (message: &'static str)
        ensures
            message@ == self.text(),
    {
        "number is outside the range of canonical JSON"
    }
}

/// The record of an event that a stage took.
#[derive(Clone, Copy, Debug, PartialEq, Eq, Structural)]
pub struct CanonicalCommittedEvent {
    pub event_id: EventId,
    pub run_id: RunId,
    pub sequence: u64,
    pub message_id: MessageId,
    pub message_digest: Sha256Digest,
    pub stage_instance_id: StageInstanceId,
    pub prior_control_revision: u64,
    pub event: StageEvent,
}

/// The record of an event that a pipeline took.
#[derive(Clone, Copy, Debug, PartialEq, Eq, Structural)]
pub struct CanonicalCommittedPipelineEvent {
    pub event_id: EventId,
    pub run_id: RunId,
    pub sequence: u64,
    pub message_id: MessageId,
    pub message_digest: Sha256Digest,
    pub prior_control_revision: u64,
    pub event: PipelineEvent,
}

/// Two texts that start with parts of one length are equal only where both parts are.
proof fn lemma_split_begin<A>(a: Seq<A>, x: Seq<A>, b: Seq<A>, y: Seq<A>)
    requires
        a + x == b + y,
        a.len() == b.len(),
    ensures
        a == b,
        x == y,
{
    assert(a.len() + x.len() == (a + x).len());
    assert(b.len() + y.len() == (b + y).len());
    lemma_split_end(a, x, b, y);
}

impl StageEventKind {
    /// The kind as canonical JSON.
    pub open spec fn text(self) -> Seq<char> {
        match self {
            StageEventKind::InputsAccepted { input_manifest_digest } =>
                "{\"InputsAccepted\":{\"input_manifest_digest\":\""@
                    + input_manifest_digest.text() + "\"}}"@,
            StageEventKind::ProvisioningBegun => "\"ProvisioningBegun\""@,
            StageEventKind::NodeStarted { attempt } => "{\"NodeStarted\":{\"attempt\":"@
                + decimal(attempt as nat) + "}}"@,
        }
    }

    fn to_text(&self) -> (text: String)
        ensures
            text@ == self.text(),
    {
        match self {
            StageEventKind::InputsAccepted { input_manifest_digest } => {
                let mut text = "{\"InputsAccepted\":{\"input_manifest_digest\":\"".to_owned();
                text.append(input_manifest_digest.to_prefixed_string().as_str());
                text.append("\"}}");
                text
            },
            StageEventKind::ProvisioningBegun => "\"ProvisioningBegun\"".to_owned(),
            StageEventKind::NodeStarted { attempt } => {
                let mut text = "{\"NodeStarted\":{\"attempt\":".to_owned();
                append_decimal(&mut text, *attempt);
                text.append("}}");
                text
            },
        }
    }

    proof fn lemma_lead(self)
        ensures
            self.text().len() > 2,
            match self {
                StageEventKind::InputsAccepted { .. } => self.text()[0] == '{' && self.text()[2]
                    == 'I',
                StageEventKind::ProvisioningBegun => self.text()[0] == '"',
                StageEventKind::NodeStarted { .. } => self.text()[0] == '{' && self.text()[2]
                    == 'N',
            },
    {
        reveal_strlit("{\"InputsAccepted\":{\"input_manifest_digest\":\"");
        reveal_strlit("\"ProvisioningBegun\"");
        reveal_strlit("{\"NodeStarted\":{\"attempt\":");
    }

    /// No two kinds have the same canonical JSON text.
    pub proof fn lemma_text_injective(self, other: Self)
        requires
            self.text() == other.text(),
        ensures
            self == other,
    {
        reveal_strlit("{\"InputsAccepted\":{\"input_manifest_digest\":\"");
        reveal_strlit("\"}}");
        reveal_strlit("\"ProvisioningBegun\"");
        reveal_strlit("{\"NodeStarted\":{\"attempt\":");
        reveal_strlit("}}");
        self.lemma_lead();
        other.lemma_lead();
        match (self, other) {
            (
                StageEventKind::InputsAccepted { input_manifest_digest: a },
                StageEventKind::InputsAccepted { input_manifest_digest: b },
            ) => {
                let lead = "{\"InputsAccepted\":{\"input_manifest_digest\":\""@;
                lemma_split_end(lead + a.text(), "\"}}"@, lead + b.text(), "\"}}"@);
                lemma_split_begin(lead, a.text(), lead, b.text());
                a.lemma_text(a.text());
                b.lemma_text(a.text());
            },
            (
                StageEventKind::NodeStarted { attempt: a },
                StageEventKind::NodeStarted { attempt: b },
            ) => {
                let lead = "{\"NodeStarted\":{\"attempt\":"@;
                lemma_split_end(
                    lead + decimal(a as nat),
                    "}}"@,
                    lead + decimal(b as nat),
                    "}}"@,
                );
                lemma_split_decimal(lead, a as nat, lead, b as nat);
            },
            _ => {},
        }
    }
}

impl PipelineEventKind {
    /// The kind as canonical JSON.
    pub open spec fn text(self) -> Seq<char> {
        match self {
            PipelineEventKind::StageScheduled { stage_instance_id } =>
                "{\"StageScheduled\":{\"stage_instance_id\":\""@ + stage_instance_id.text()
                    + "\"}}"@,
        }
    }

    fn to_text(&self) -> (text: String)
        ensures
            text@ == self.text(),
    {
        match self {
            PipelineEventKind::StageScheduled { stage_instance_id } => {
                let mut text = "{\"StageScheduled\":{\"stage_instance_id\":\"".to_owned();
                text.append(stage_instance_id.as_str().as_str());
                text.append("\"}}");
                text
            },
        }
    }

    /// No two kinds have the same canonical JSON text.
    pub proof fn lemma_text_injective(self, other: Self)
        requires
            self.text() == other.text(),
        ensures
            self == other,
    {
        let PipelineEventKind::StageScheduled { stage_instance_id: a } = self;
        let PipelineEventKind::StageScheduled { stage_instance_id: b } = other;
        let lead = "{\"StageScheduled\":{\"stage_instance_id\":\""@;
        lemma_split_end(lead + a.text(), "\"}}"@, lead + b.text(), "\"}}"@);
        lemma_split_begin(lead, a.text(), lead, b.text());
        a.lemma_text(a.text());
        b.lemma_text(a.text());
    }
}

impl StageEvent {
    /// The event as canonical JSON.
    pub open spec fn text(self) -> Seq<char> {
        "{\"kind\":"@
            + self.kind.text()
            + ",\"prior_control_revision\":"@
            + decimal(self.prior_control_revision as nat)
            + ",\"stage_instance_id\":\""@
            + self.stage_instance_id.text()
            + "\"}"@
    }

    fn to_text(&self) -> (text: String)
        ensures
            text@ == self.text(),
    {
        let mut text = "{\"kind\":".to_owned();
        text.append(self.kind.to_text().as_str());
        text.append(",\"prior_control_revision\":");
        append_decimal(&mut text, self.prior_control_revision);
        text.append(",\"stage_instance_id\":\"");
        text.append(self.stage_instance_id.as_str().as_str());
        text.append("\"}");
        text
    }

    /// No two values have the same canonical JSON text.
    pub proof fn lemma_text_injective(self, other: Self)
        requires
            self.text() == other.text(),
        ensures
            self == other,
    {
        reveal_strlit("{\"kind\":");
        reveal_strlit(",\"prior_control_revision\":");
        reveal_strlit(",\"stage_instance_id\":\"");
        reveal_strlit("\"}");
        let x0 = "{\"kind\":"@;
        let x1 = x0 + self.kind.text();
        let x2 = x1 + ",\"prior_control_revision\":"@;
        let x3 = x2 + decimal(self.prior_control_revision as nat);
        let x4 = x3 + ",\"stage_instance_id\":\""@;
        let x5 = x4 + self.stage_instance_id.text();
        let y0 = "{\"kind\":"@;
        let y1 = y0 + other.kind.text();
        let y2 = y1 + ",\"prior_control_revision\":"@;
        let y3 = y2 + decimal(other.prior_control_revision as nat);
        let y4 = y3 + ",\"stage_instance_id\":\""@;
        let y5 = y4 + other.stage_instance_id.text();
        lemma_split_end(x5, "\"}"@, y5, "\"}"@);
        self.stage_instance_id.lemma_text(self.stage_instance_id.text());
        other.stage_instance_id.lemma_text(self.stage_instance_id.text());
        lemma_split_end(x4, self.stage_instance_id.text(), y4, other.stage_instance_id.text());
        lemma_split_end(x3, ",\"stage_instance_id\":\""@, y3, ",\"stage_instance_id\":\""@);
        lemma_split_decimal(
            x2,
            self.prior_control_revision as nat,
            y2,
            other.prior_control_revision as nat,
        );
        lemma_split_end(x1, ",\"prior_control_revision\":"@, y1, ",\"prior_control_revision\":"@);
        lemma_split_begin(x0, self.kind.text(), y0, other.kind.text());
        self.kind.lemma_text_injective(other.kind);
    }
}

impl PipelineEvent {
    /// The event as canonical JSON.
    pub open spec fn text(self) -> Seq<char> {
        "{\"kind\":"@
            + self.kind.text()
            + ",\"prior_control_revision\":"@
            + decimal(self.prior_control_revision as nat)
            + "}"@
    }

    fn to_text(&self) -> (text: String)
        ensures
            text@ == self.text(),
    {
        let mut text = "{\"kind\":".to_owned();
        text.append(self.kind.to_text().as_str());
        text.append(",\"prior_control_revision\":");
        append_decimal(&mut text, self.prior_control_revision);
        text.append("}");
        text
    }

    /// No two values have the same canonical JSON text.
    pub proof fn lemma_text_injective(self, other: Self)
        requires
            self.text() == other.text(),
        ensures
            self == other,
    {
        reveal_strlit("{\"kind\":");
        reveal_strlit(",\"prior_control_revision\":");
        reveal_strlit("}");
        let x0 = "{\"kind\":"@;
        let x1 = x0 + self.kind.text();
        let x2 = x1 + ",\"prior_control_revision\":"@;
        let x3 = x2 + decimal(self.prior_control_revision as nat);
        let y0 = "{\"kind\":"@;
        let y1 = y0 + other.kind.text();
        let y2 = y1 + ",\"prior_control_revision\":"@;
        let y3 = y2 + decimal(other.prior_control_revision as nat);
        lemma_split_end(x3, "}"@, y3, "}"@);
        lemma_split_decimal(
            x2,
            self.prior_control_revision as nat,
            y2,
            other.prior_control_revision as nat,
        );
        lemma_split_end(x1, ",\"prior_control_revision\":"@, y1, ",\"prior_control_revision\":"@);
        lemma_split_begin(x0, self.kind.text(), y0, other.kind.text());
        self.kind.lemma_text_injective(other.kind);
    }
}

impl CanonicalCommittedEvent {
    /// The record as canonical JSON.
    pub open spec fn text(self) -> Seq<char> {
        "{\"event\":"@
            + self.event.text()
            + ",\"event_id\":\""@
            + self.event_id.text()
            + "\",\"message_digest\":\""@
            + self.message_digest.text()
            + "\",\"message_id\":\""@
            + self.message_id.text()
            + "\",\"prior_control_revision\":"@
            + decimal(self.prior_control_revision as nat)
            + ",\"run_id\":\""@
            + self.run_id.text()
            + "\",\"sequence\":"@
            + decimal(self.sequence as nat)
            + ",\"stage_instance_id\":\""@
            + self.stage_instance_id.text()
            + "\"}"@
    }

    fn to_text(&self) -> (text: String)
        ensures
            text@ == self.text(),
    {
        let mut text = "{\"event\":".to_owned();
        text.append(self.event.to_text().as_str());
        text.append(",\"event_id\":\"");
        text.append(self.event_id.as_str().as_str());
        text.append("\",\"message_digest\":\"");
        text.append(self.message_digest.to_prefixed_string().as_str());
        text.append("\",\"message_id\":\"");
        text.append(self.message_id.as_str().as_str());
        text.append("\",\"prior_control_revision\":");
        append_decimal(&mut text, self.prior_control_revision);
        text.append(",\"run_id\":\"");
        text.append(self.run_id.as_str().as_str());
        text.append("\",\"sequence\":");
        append_decimal(&mut text, self.sequence);
        text.append(",\"stage_instance_id\":\"");
        text.append(self.stage_instance_id.as_str().as_str());
        text.append("\"}");
        text
    }

    /// No two values have the same canonical JSON text.
    pub proof fn lemma_text_injective(self, other: Self)
        requires
            self.text() == other.text(),
        ensures
            self == other,
    {
        reveal_strlit("{\"event\":");
        reveal_strlit(",\"event_id\":\"");
        reveal_strlit("\",\"message_digest\":\"");
        reveal_strlit("\",\"message_id\":\"");
        reveal_strlit("\",\"prior_control_revision\":");
        reveal_strlit(",\"run_id\":\"");
        reveal_strlit("\",\"sequence\":");
        reveal_strlit(",\"stage_instance_id\":\"");
        reveal_strlit("\"}");
        let x0 = "{\"event\":"@;
        let x1 = x0 + self.event.text();
        let x2 = x1 + ",\"event_id\":\""@;
        let x3 = x2 + self.event_id.text();
        let x4 = x3 + "\",\"message_digest\":\""@;
        let x5 = x4 + self.message_digest.text();
        let x6 = x5 + "\",\"message_id\":\""@;
        let x7 = x6 + self.message_id.text();
        let x8 = x7 + "\",\"prior_control_revision\":"@;
        let x9 = x8 + decimal(self.prior_control_revision as nat);
        let x10 = x9 + ",\"run_id\":\""@;
        let x11 = x10 + self.run_id.text();
        let x12 = x11 + "\",\"sequence\":"@;
        let x13 = x12 + decimal(self.sequence as nat);
        let x14 = x13 + ",\"stage_instance_id\":\""@;
        let x15 = x14 + self.stage_instance_id.text();
        let y0 = "{\"event\":"@;
        let y1 = y0 + other.event.text();
        let y2 = y1 + ",\"event_id\":\""@;
        let y3 = y2 + other.event_id.text();
        let y4 = y3 + "\",\"message_digest\":\""@;
        let y5 = y4 + other.message_digest.text();
        let y6 = y5 + "\",\"message_id\":\""@;
        let y7 = y6 + other.message_id.text();
        let y8 = y7 + "\",\"prior_control_revision\":"@;
        let y9 = y8 + decimal(other.prior_control_revision as nat);
        let y10 = y9 + ",\"run_id\":\""@;
        let y11 = y10 + other.run_id.text();
        let y12 = y11 + "\",\"sequence\":"@;
        let y13 = y12 + decimal(other.sequence as nat);
        let y14 = y13 + ",\"stage_instance_id\":\""@;
        let y15 = y14 + other.stage_instance_id.text();
        lemma_split_end(x15, "\"}"@, y15, "\"}"@);
        self.stage_instance_id.lemma_text(self.stage_instance_id.text());
        other.stage_instance_id.lemma_text(self.stage_instance_id.text());
        lemma_split_end(x14, self.stage_instance_id.text(), y14, other.stage_instance_id.text());
        lemma_split_end(x13, ",\"stage_instance_id\":\""@, y13, ",\"stage_instance_id\":\""@);
        lemma_split_decimal(x12, self.sequence as nat, y12, other.sequence as nat);
        lemma_split_end(x11, "\",\"sequence\":"@, y11, "\",\"sequence\":"@);
        self.run_id.lemma_text(self.run_id.text());
        other.run_id.lemma_text(self.run_id.text());
        lemma_split_end(x10, self.run_id.text(), y10, other.run_id.text());
        lemma_split_end(x9, ",\"run_id\":\""@, y9, ",\"run_id\":\""@);
        lemma_split_decimal(
            x8,
            self.prior_control_revision as nat,
            y8,
            other.prior_control_revision as nat,
        );
        lemma_split_end(
            x7,
            "\",\"prior_control_revision\":"@,
            y7,
            "\",\"prior_control_revision\":"@,
        );
        self.message_id.lemma_text(self.message_id.text());
        other.message_id.lemma_text(self.message_id.text());
        lemma_split_end(x6, self.message_id.text(), y6, other.message_id.text());
        lemma_split_end(x5, "\",\"message_id\":\""@, y5, "\",\"message_id\":\""@);
        self.message_digest.lemma_text(self.message_digest.text());
        other.message_digest.lemma_text(self.message_digest.text());
        lemma_split_end(x4, self.message_digest.text(), y4, other.message_digest.text());
        lemma_split_end(x3, "\",\"message_digest\":\""@, y3, "\",\"message_digest\":\""@);
        self.event_id.lemma_text(self.event_id.text());
        other.event_id.lemma_text(self.event_id.text());
        lemma_split_end(x2, self.event_id.text(), y2, other.event_id.text());
        lemma_split_end(x1, ",\"event_id\":\""@, y1, ",\"event_id\":\""@);
        lemma_split_begin(x0, self.event.text(), y0, other.event.text());
        self.event.lemma_text_injective(other.event);
    }
}

impl CanonicalCommittedEvent {
    /// Every number of the record is one that canonical JSON can hold.
    pub open spec fn in_range(self) -> bool {
        self.sequence <= MAX_CONTROL_REVISION
            && self.prior_control_revision <= MAX_CONTROL_REVISION
            && self.event.prior_control_revision <= MAX_CONTROL_REVISION
            && (self.event.kind matches StageEventKind::NodeStarted { attempt } ==> attempt
                <= MAX_CONTROL_REVISION)
    }

    /// The bytes of the canonical JSON text, or why there is none.
    pub open spec fn canonical(self) -> Result<Seq<u8>, CanonicalJsonError> {
        if self.in_range() {
            Ok(encode_utf8(self.text()))
        } else {
            Err(CanonicalJsonError::NumberOutOfRange)
        }
    }

    /// Writes the record as canonical JSON.
    pub fn to_canonical_json(&self) -> (bytes: Result<Vec<u8>, CanonicalJsonError>)
        ensures
            match bytes {
                Ok(bytes) => self.canonical() == Ok::<Seq<u8>, CanonicalJsonError>(bytes@),
                Err(error) => self.canonical() == Err::<Seq<u8>, CanonicalJsonError>(error),
            },
    {
        if !self.fits() {
            return Err(CanonicalJsonError::NumberOutOfRange);
        }
        Ok(self.to_text().as_str().as_bytes_vec())
    }

    /// A record is determined by its canonical JSON: no two records have the same bytes.
    pub proof fn lemma_canonical_injective(self, other: Self)
        requires
            self.canonical() is Ok,
            self.canonical() == other.canonical(),
        ensures
            self == other,
    {
        encode_utf8_decode_utf8(self.text());
        encode_utf8_decode_utf8(other.text());
        self.lemma_text_injective(other);
    }
}

impl CanonicalCommittedPipelineEvent {
    /// The record as canonical JSON.
    pub open spec fn text(self) -> Seq<char> {
        "{\"event\":"@
            + self.event.text()
            + ",\"event_id\":\""@
            + self.event_id.text()
            + "\",\"message_digest\":\""@
            + self.message_digest.text()
            + "\",\"message_id\":\""@
            + self.message_id.text()
            + "\",\"prior_control_revision\":"@
            + decimal(self.prior_control_revision as nat)
            + ",\"run_id\":\""@
            + self.run_id.text()
            + "\",\"sequence\":"@
            + decimal(self.sequence as nat)
            + "}"@
    }

    fn to_text(&self) -> (text: String)
        ensures
            text@ == self.text(),
    {
        let mut text = "{\"event\":".to_owned();
        text.append(self.event.to_text().as_str());
        text.append(",\"event_id\":\"");
        text.append(self.event_id.as_str().as_str());
        text.append("\",\"message_digest\":\"");
        text.append(self.message_digest.to_prefixed_string().as_str());
        text.append("\",\"message_id\":\"");
        text.append(self.message_id.as_str().as_str());
        text.append("\",\"prior_control_revision\":");
        append_decimal(&mut text, self.prior_control_revision);
        text.append(",\"run_id\":\"");
        text.append(self.run_id.as_str().as_str());
        text.append("\",\"sequence\":");
        append_decimal(&mut text, self.sequence);
        text.append("}");
        text
    }

    /// No two values have the same canonical JSON text.
    pub proof fn lemma_text_injective(self, other: Self)
        requires
            self.text() == other.text(),
        ensures
            self == other,
    {
        reveal_strlit("{\"event\":");
        reveal_strlit(",\"event_id\":\"");
        reveal_strlit("\",\"message_digest\":\"");
        reveal_strlit("\",\"message_id\":\"");
        reveal_strlit("\",\"prior_control_revision\":");
        reveal_strlit(",\"run_id\":\"");
        reveal_strlit("\",\"sequence\":");
        reveal_strlit("}");
        let x0 = "{\"event\":"@;
        let x1 = x0 + self.event.text();
        let x2 = x1 + ",\"event_id\":\""@;
        let x3 = x2 + self.event_id.text();
        let x4 = x3 + "\",\"message_digest\":\""@;
        let x5 = x4 + self.message_digest.text();
        let x6 = x5 + "\",\"message_id\":\""@;
        let x7 = x6 + self.message_id.text();
        let x8 = x7 + "\",\"prior_control_revision\":"@;
        let x9 = x8 + decimal(self.prior_control_revision as nat);
        let x10 = x9 + ",\"run_id\":\""@;
        let x11 = x10 + self.run_id.text();
        let x12 = x11 + "\",\"sequence\":"@;
        let x13 = x12 + decimal(self.sequence as nat);
        let y0 = "{\"event\":"@;
        let y1 = y0 + other.event.text();
        let y2 = y1 + ",\"event_id\":\""@;
        let y3 = y2 + other.event_id.text();
        let y4 = y3 + "\",\"message_digest\":\""@;
        let y5 = y4 + other.message_digest.text();
        let y6 = y5 + "\",\"message_id\":\""@;
        let y7 = y6 + other.message_id.text();
        let y8 = y7 + "\",\"prior_control_revision\":"@;
        let y9 = y8 + decimal(other.prior_control_revision as nat);
        let y10 = y9 + ",\"run_id\":\""@;
        let y11 = y10 + other.run_id.text();
        let y12 = y11 + "\",\"sequence\":"@;
        let y13 = y12 + decimal(other.sequence as nat);
        lemma_split_end(x13, "}"@, y13, "}"@);
        lemma_split_decimal(x12, self.sequence as nat, y12, other.sequence as nat);
        lemma_split_end(x11, "\",\"sequence\":"@, y11, "\",\"sequence\":"@);
        self.run_id.lemma_text(self.run_id.text());
        other.run_id.lemma_text(self.run_id.text());
        lemma_split_end(x10, self.run_id.text(), y10, other.run_id.text());
        lemma_split_end(x9, ",\"run_id\":\""@, y9, ",\"run_id\":\""@);
        lemma_split_decimal(
            x8,
            self.prior_control_revision as nat,
            y8,
            other.prior_control_revision as nat,
        );
        lemma_split_end(
            x7,
            "\",\"prior_control_revision\":"@,
            y7,
            "\",\"prior_control_revision\":"@,
        );
        self.message_id.lemma_text(self.message_id.text());
        other.message_id.lemma_text(self.message_id.text());
        lemma_split_end(x6, self.message_id.text(), y6, other.message_id.text());
        lemma_split_end(x5, "\",\"message_id\":\""@, y5, "\",\"message_id\":\""@);
        self.message_digest.lemma_text(self.message_digest.text());
        other.message_digest.lemma_text(self.message_digest.text());
        lemma_split_end(x4, self.message_digest.text(), y4, other.message_digest.text());
        lemma_split_end(x3, "\",\"message_digest\":\""@, y3, "\",\"message_digest\":\""@);
        self.event_id.lemma_text(self.event_id.text());
        other.event_id.lemma_text(self.event_id.text());
        lemma_split_end(x2, self.event_id.text(), y2, other.event_id.text());
        lemma_split_end(x1, ",\"event_id\":\""@, y1, ",\"event_id\":\""@);
        lemma_split_begin(x0, self.event.text(), y0, other.event.text());
        self.event.lemma_text_injective(other.event);
    }
}

impl CanonicalCommittedPipelineEvent {
    /// Every number of the record is one that canonical JSON can hold.
    pub open spec fn in_range(self) -> bool {
        self.sequence <= MAX_CONTROL_REVISION
            && self.prior_control_revision <= MAX_CONTROL_REVISION
            && self.event.prior_control_revision <= MAX_CONTROL_REVISION
    }

    /// The bytes of the canonical JSON text, or why there is none.
    pub open spec fn canonical(self) -> Result<Seq<u8>, CanonicalJsonError> {
        if self.in_range() {
            Ok(encode_utf8(self.text()))
        } else {
            Err(CanonicalJsonError::NumberOutOfRange)
        }
    }

    /// Writes the record as canonical JSON.
    pub fn to_canonical_json(&self) -> (bytes: Result<Vec<u8>, CanonicalJsonError>)
        ensures
            match bytes {
                Ok(bytes) => self.canonical() == Ok::<Seq<u8>, CanonicalJsonError>(bytes@),
                Err(error) => self.canonical() == Err::<Seq<u8>, CanonicalJsonError>(error),
            },
    {
        if !self.fits() {
            return Err(CanonicalJsonError::NumberOutOfRange);
        }
        Ok(self.to_text().as_str().as_bytes_vec())
    }

    /// A record is determined by its canonical JSON: no two records have the same bytes.
    pub proof fn lemma_canonical_injective(self, other: Self)
        requires
            self.canonical() is Ok,
            self.canonical() == other.canonical(),
        ensures
            self == other,
    {
        encode_utf8_decode_utf8(self.text());
        encode_utf8_decode_utf8(other.text());
        self.lemma_text_injective(other);
    }
}

impl CanonicalCommittedEvent {
    fn fits(&self) -> (fits: bool)
        ensures
            fits == self.in_range(),
    {
        let attempt: u64 = match self.event.kind {
            StageEventKind::NodeStarted { attempt } => attempt,
            _ => 0,
        };
        self.sequence <= MAX_CONTROL_REVISION && self.prior_control_revision
            <= MAX_CONTROL_REVISION && self.event.prior_control_revision <= MAX_CONTROL_REVISION
            && attempt <= MAX_CONTROL_REVISION
    }
}

impl CanonicalCommittedPipelineEvent {
    fn fits(&self) -> (fits: bool)
        ensures
            fits == self.in_range(),
    {
        self.sequence <= MAX_CONTROL_REVISION && self.prior_control_revision
            <= MAX_CONTROL_REVISION && self.event.prior_control_revision <= MAX_CONTROL_REVISION
    }
}

} // verus!
