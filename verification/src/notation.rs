//! The JSON that records are written in: objects, member by member.

use vstd::prelude::*;

use crate::canonical_json::{CanonicalCommittedEvent, CanonicalCommittedPipelineEvent};
use crate::numeral::decimal;
use crate::pipeline::{PipelineEvent, PipelineEventKind};
use crate::stage::{StageEvent, StageEventKind};

verus! {

/// A JSON string: a text that needs no escapes, between quotation marks.
pub open spec fn quoted(text: Seq<char>) -> Seq<char> {
    seq!['"'] + text + seq!['"']
}

/// The members of a JSON object: each a name, a colon and a value, with commas between them.
pub open spec fn members_text(members: Seq<(Seq<char>, Seq<char>)>) -> Seq<char>
    decreases members.len(),
{
    if members.len() == 0 {
        Seq::empty()
    } else {
        let own = quoted(members.last().0) + seq![':'] + members.last().1;
        if members.len() == 1 {
            own
        } else {
            members_text(members.drop_last()) + seq![','] + own
        }
    }
}

/// A JSON object.
pub open spec fn object(members: Seq<(Seq<char>, Seq<char>)>) -> Seq<char> {
    seq!['{'] + members_text(members) + seq!['}']
}

spec fn mark(there: bool) -> Seq<char> {
    if there {
        seq!['"']
    } else {
        Seq::empty()
    }
}

spec fn value(text: Seq<char>, string: bool) -> Seq<char> {
    if string {
        quoted(text)
    } else {
        text
    }
}

spec fn begun(text: Seq<char>, members: Seq<(Seq<char>, Seq<char>)>) -> bool {
    text == seq!['{'] + members_text(members)
}

/// A text that begins an object goes on with one more member. `open` says that the quotation
/// mark behind the last value is still to come, and `string` that the new value is a string.
proof fn lemma_next_member(
    text: Seq<char>,
    members: Seq<(Seq<char>, Seq<char>)>,
    open: bool,
    lead: Seq<char>,
    name: Seq<char>,
    text_value: Seq<char>,
    string: bool,
)
    requires
        begun(text + mark(open), members),
        members.len() > 0,
        lead == mark(open) + seq![','] + quoted(name) + seq![':'] + mark(string),
    ensures
        begun(
            text + lead + text_value + mark(string),
            members.push((name, value(text_value, string))),
        ),
{
    let more = members.push((name, value(text_value, string)));
    assert(more.drop_last() =~= members);
    let own = quoted(name) + seq![':'] + value(text_value, string);
    assert(members_text(more) == members_text(members) + seq![','] + own);
    assert(text + lead + text_value + mark(string) =~= (text + mark(open)) + seq![','] + own);
    assert(seq!['{'] + members_text(more) =~= (seq!['{'] + members_text(members)) + seq![',']
        + own);
}

/// A text that begins an object with its first member.
proof fn lemma_first_member(
    lead: Seq<char>,
    name: Seq<char>,
    text_value: Seq<char>,
    string: bool,
)
    requires
        lead == seq!['{'] + quoted(name) + seq![':'] + mark(string),
    ensures
        begun(lead + text_value + mark(string), seq![(name, value(text_value, string))]),
{
    let members = seq![(name, value(text_value, string))];
    assert(members_text(members) == quoted(name) + seq![':'] + value(text_value, string));
    assert(lead + text_value + mark(string) =~= seq!['{'] + members_text(members));
}

/// An object ends behind its last member.
proof fn lemma_object_ends(
    text: Seq<char>,
    members: Seq<(Seq<char>, Seq<char>)>,
    open: bool,
    end: Seq<char>,
)
    requires
        begun(text + mark(open), members),
        end == mark(open) + seq!['}'],
    ensures
        text + end == object(members),
{
    assert(text + end =~= (text + mark(open)) + seq!['}']);
}

/// What happened to a stage is written as its name, or as an object with its name and what came
/// with it.
pub proof fn lemma_stage_event_kind_text(kind: StageEventKind)
    ensures
        match kind {
            StageEventKind::InputsAccepted { input_manifest_digest } => kind.text() == object(
                seq![
                    (
                        "InputsAccepted"@,
                        object(
                            seq![("input_manifest_digest"@, quoted(input_manifest_digest.text()))],
                        ),
                    ),
                ],
            ),
            StageEventKind::ProvisioningBegun => kind.text() == quoted("ProvisioningBegun"@),
            StageEventKind::NodeStarted { attempt } => kind.text() == object(
                seq![("NodeStarted"@, object(seq![("attempt"@, decimal(attempt as nat))]))],
            ),
        },
{
    match kind {
        StageEventKind::InputsAccepted { input_manifest_digest } => {
            reveal_strlit("{\"InputsAccepted\":{\"input_manifest_digest\":\"");
            reveal_strlit("InputsAccepted");
            reveal_strlit("input_manifest_digest");
            reveal_strlit("\"}}");
            let inner = seq![("input_manifest_digest"@, quoted(input_manifest_digest.text()))];
            let outer = seq![("InputsAccepted"@, object(inner))];
            assert(members_text(inner) == quoted("input_manifest_digest"@) + seq![':'] + quoted(
                input_manifest_digest.text(),
            ));
            assert(members_text(outer) == quoted("InputsAccepted"@) + seq![':'] + object(inner));
            assert(kind.text() =~= object(outer));
        },
        StageEventKind::ProvisioningBegun => {
            reveal_strlit("\"ProvisioningBegun\"");
            reveal_strlit("ProvisioningBegun");
            assert(kind.text() =~= quoted("ProvisioningBegun"@));
        },
        StageEventKind::NodeStarted { attempt } => {
            reveal_strlit("{\"NodeStarted\":{\"attempt\":");
            reveal_strlit("NodeStarted");
            reveal_strlit("attempt");
            reveal_strlit("}}");
            let inner = seq![("attempt"@, decimal(attempt as nat))];
            let outer = seq![("NodeStarted"@, object(inner))];
            assert(members_text(inner) == quoted("attempt"@) + seq![':'] + decimal(
                attempt as nat,
            ));
            assert(members_text(outer) == quoted("NodeStarted"@) + seq![':'] + object(inner));
            assert(kind.text() =~= object(outer));
        },
    }
}

/// What happened to a pipeline is written as an object with its name and the stage.
pub proof fn lemma_pipeline_event_kind_text(kind: PipelineEventKind)
    ensures
        kind matches PipelineEventKind::StageScheduled { stage_instance_id } && kind.text()
            == object(
            seq![
                (
                    "StageScheduled"@,
                    object(seq![("stage_instance_id"@, quoted(stage_instance_id.text()))]),
                ),
            ],
        ),
{
    let PipelineEventKind::StageScheduled { stage_instance_id } = kind;
    reveal_strlit("{\"StageScheduled\":{\"stage_instance_id\":\"");
    reveal_strlit("StageScheduled");
    reveal_strlit("stage_instance_id");
    reveal_strlit("\"}}");
    let inner = seq![("stage_instance_id"@, quoted(stage_instance_id.text()))];
    let outer = seq![("StageScheduled"@, object(inner))];
    assert(members_text(inner) == quoted("stage_instance_id"@) + seq![':'] + quoted(
        stage_instance_id.text(),
    ));
    assert(members_text(outer) == quoted("StageScheduled"@) + seq![':'] + object(inner));
    assert(kind.text() =~= object(outer));
}

/// An event of a stage is written as an object with what happened, the revision that it comes at
/// and the stage.
pub proof fn lemma_stage_event_text(it: StageEvent)
    ensures
        it.text() == object(
            seq![
                ("kind"@, it.kind.text()),
                ("prior_control_revision"@, decimal(it.prior_control_revision as nat)),
                ("stage_instance_id"@, quoted(it.stage_instance_id.text())),
            ],
        ),
{
    assert("{\"kind\":"@ == seq!['{'] + quoted("kind"@) + seq![':'] + mark(false)) by {
        reveal_strlit("{\"kind\":");
        reveal_strlit("kind");
        assert("{\"kind\":"@ =~= seq!['{'] + quoted("kind"@) + seq![':'] + mark(false));
    }
    let t0 = "{\"kind\":"@ + it.kind.text();
    let m0 = seq![("kind"@, value(it.kind.text(), false))];
    lemma_first_member("{\"kind\":"@, "kind"@, it.kind.text(), false);
    assert(t0 + mark(false) =~= t0);
    assert(",\"prior_control_revision\":"@ == mark(false) + seq![',']
        + quoted("prior_control_revision"@) + seq![':'] + mark(false)) by {
        reveal_strlit(",\"prior_control_revision\":");
        reveal_strlit("prior_control_revision");
        assert(",\"prior_control_revision\":"@ =~= mark(false) + seq![',']
            + quoted("prior_control_revision"@) + seq![':'] + mark(false));
    }
    let t1 = t0 + ",\"prior_control_revision\":"@ + decimal(it.prior_control_revision as nat);
    let m1 = m0.push(
        ("prior_control_revision"@, value(decimal(it.prior_control_revision as nat), false)),
    );
    lemma_next_member(
        t0,
        m0,
        false,
        ",\"prior_control_revision\":"@,
        "prior_control_revision"@,
        decimal(it.prior_control_revision as nat),
        false,
    );
    assert(t1 + mark(false) =~= t1);
    assert(",\"stage_instance_id\":\""@ == mark(false) + seq![',']
        + quoted("stage_instance_id"@) + seq![':'] + mark(true)) by {
        reveal_strlit(",\"stage_instance_id\":\"");
        reveal_strlit("stage_instance_id");
        assert(",\"stage_instance_id\":\""@ =~= mark(false) + seq![',']
            + quoted("stage_instance_id"@) + seq![':'] + mark(true));
    }
    let t2 = t1 + ",\"stage_instance_id\":\""@ + it.stage_instance_id.text();
    let m2 = m1.push(("stage_instance_id"@, value(it.stage_instance_id.text(), true)));
    lemma_next_member(
        t1,
        m1,
        false,
        ",\"stage_instance_id\":\""@,
        "stage_instance_id"@,
        it.stage_instance_id.text(),
        true,
    );
    assert("\"}"@ == mark(true) + seq!['}']) by {
        reveal_strlit("\"}");
        assert("\"}"@ =~= mark(true) + seq!['}']);
    }
    lemma_object_ends(t2, m2, true, "\"}"@);
    assert(m2 =~= seq![
        ("kind"@, it.kind.text()),
        ("prior_control_revision"@, decimal(it.prior_control_revision as nat)),
        ("stage_instance_id"@, quoted(it.stage_instance_id.text())),
    ]);
}

/// An event of a pipeline is written as an object with what happened and the revision that it
/// comes at.
pub proof fn lemma_pipeline_event_text(it: PipelineEvent)
    ensures
        it.text() == object(
            seq![
                ("kind"@, it.kind.text()),
                ("prior_control_revision"@, decimal(it.prior_control_revision as nat)),
            ],
        ),
{
    assert("{\"kind\":"@ == seq!['{'] + quoted("kind"@) + seq![':'] + mark(false)) by {
        reveal_strlit("{\"kind\":");
        reveal_strlit("kind");
        assert("{\"kind\":"@ =~= seq!['{'] + quoted("kind"@) + seq![':'] + mark(false));
    }
    let t0 = "{\"kind\":"@ + it.kind.text();
    let m0 = seq![("kind"@, value(it.kind.text(), false))];
    lemma_first_member("{\"kind\":"@, "kind"@, it.kind.text(), false);
    assert(t0 + mark(false) =~= t0);
    assert(",\"prior_control_revision\":"@ == mark(false) + seq![',']
        + quoted("prior_control_revision"@) + seq![':'] + mark(false)) by {
        reveal_strlit(",\"prior_control_revision\":");
        reveal_strlit("prior_control_revision");
        assert(",\"prior_control_revision\":"@ =~= mark(false) + seq![',']
            + quoted("prior_control_revision"@) + seq![':'] + mark(false));
    }
    let t1 = t0 + ",\"prior_control_revision\":"@ + decimal(it.prior_control_revision as nat);
    let m1 = m0.push(
        ("prior_control_revision"@, value(decimal(it.prior_control_revision as nat), false)),
    );
    lemma_next_member(
        t0,
        m0,
        false,
        ",\"prior_control_revision\":"@,
        "prior_control_revision"@,
        decimal(it.prior_control_revision as nat),
        false,
    );
    assert(t1 + mark(false) =~= t1);
    assert("}"@ == mark(false) + seq!['}']) by {
        reveal_strlit("}");
        assert("}"@ =~= mark(false) + seq!['}']);
    }
    lemma_object_ends(t1, m1, false, "}"@);
    assert(m1 =~= seq![
        ("kind"@, it.kind.text()),
        ("prior_control_revision"@, decimal(it.prior_control_revision as nat)),
    ]);
}

/// A record is written as an object with each of its parts, in ascending order of their names.
pub proof fn lemma_record_text(it: CanonicalCommittedEvent)
    ensures
        it.text() == object(
            seq![
                ("event"@, it.event.text()),
                ("event_id"@, quoted(it.event_id.text())),
                ("message_digest"@, quoted(it.message_digest.text())),
                ("message_id"@, quoted(it.message_id.text())),
                ("prior_control_revision"@, decimal(it.prior_control_revision as nat)),
                ("run_id"@, quoted(it.run_id.text())),
                ("sequence"@, decimal(it.sequence as nat)),
                ("stage_instance_id"@, quoted(it.stage_instance_id.text())),
            ],
        ),
{
    assert("{\"event\":"@ == seq!['{'] + quoted("event"@) + seq![':'] + mark(false)) by {
        reveal_strlit("{\"event\":");
        reveal_strlit("event");
        assert("{\"event\":"@ =~= seq!['{'] + quoted("event"@) + seq![':'] + mark(false));
    }
    let t0 = "{\"event\":"@ + it.event.text();
    let m0 = seq![("event"@, value(it.event.text(), false))];
    lemma_first_member("{\"event\":"@, "event"@, it.event.text(), false);
    assert(t0 + mark(false) =~= t0);
    assert(",\"event_id\":\""@ == mark(false) + seq![',']
        + quoted("event_id"@) + seq![':'] + mark(true)) by {
        reveal_strlit(",\"event_id\":\"");
        reveal_strlit("event_id");
        assert(",\"event_id\":\""@ =~= mark(false) + seq![',']
            + quoted("event_id"@) + seq![':'] + mark(true));
    }
    let t1 = t0 + ",\"event_id\":\""@ + it.event_id.text();
    let m1 = m0.push(("event_id"@, value(it.event_id.text(), true)));
    lemma_next_member(
        t0,
        m0,
        false,
        ",\"event_id\":\""@,
        "event_id"@,
        it.event_id.text(),
        true,
    );
    assert("\",\"message_digest\":\""@ == mark(true) + seq![',']
        + quoted("message_digest"@) + seq![':'] + mark(true)) by {
        reveal_strlit("\",\"message_digest\":\"");
        reveal_strlit("message_digest");
        assert("\",\"message_digest\":\""@ =~= mark(true) + seq![',']
            + quoted("message_digest"@) + seq![':'] + mark(true));
    }
    let t2 = t1 + "\",\"message_digest\":\""@ + it.message_digest.text();
    let m2 = m1.push(("message_digest"@, value(it.message_digest.text(), true)));
    lemma_next_member(
        t1,
        m1,
        true,
        "\",\"message_digest\":\""@,
        "message_digest"@,
        it.message_digest.text(),
        true,
    );
    assert("\",\"message_id\":\""@ == mark(true) + seq![',']
        + quoted("message_id"@) + seq![':'] + mark(true)) by {
        reveal_strlit("\",\"message_id\":\"");
        reveal_strlit("message_id");
        assert("\",\"message_id\":\""@ =~= mark(true) + seq![',']
            + quoted("message_id"@) + seq![':'] + mark(true));
    }
    let t3 = t2 + "\",\"message_id\":\""@ + it.message_id.text();
    let m3 = m2.push(("message_id"@, value(it.message_id.text(), true)));
    lemma_next_member(
        t2,
        m2,
        true,
        "\",\"message_id\":\""@,
        "message_id"@,
        it.message_id.text(),
        true,
    );
    assert("\",\"prior_control_revision\":"@ == mark(true) + seq![',']
        + quoted("prior_control_revision"@) + seq![':'] + mark(false)) by {
        reveal_strlit("\",\"prior_control_revision\":");
        reveal_strlit("prior_control_revision");
        assert("\",\"prior_control_revision\":"@ =~= mark(true) + seq![',']
            + quoted("prior_control_revision"@) + seq![':'] + mark(false));
    }
    let t4 = t3 + "\",\"prior_control_revision\":"@ + decimal(it.prior_control_revision as nat);
    let m4 = m3.push(
        ("prior_control_revision"@, value(decimal(it.prior_control_revision as nat), false)),
    );
    lemma_next_member(
        t3,
        m3,
        true,
        "\",\"prior_control_revision\":"@,
        "prior_control_revision"@,
        decimal(it.prior_control_revision as nat),
        false,
    );
    assert(t4 + mark(false) =~= t4);
    assert(",\"run_id\":\""@ == mark(false) + seq![',']
        + quoted("run_id"@) + seq![':'] + mark(true)) by {
        reveal_strlit(",\"run_id\":\"");
        reveal_strlit("run_id");
        assert(",\"run_id\":\""@ =~= mark(false) + seq![',']
            + quoted("run_id"@) + seq![':'] + mark(true));
    }
    let t5 = t4 + ",\"run_id\":\""@ + it.run_id.text();
    let m5 = m4.push(("run_id"@, value(it.run_id.text(), true)));
    lemma_next_member(
        t4,
        m4,
        false,
        ",\"run_id\":\""@,
        "run_id"@,
        it.run_id.text(),
        true,
    );
    assert("\",\"sequence\":"@ == mark(true) + seq![',']
        + quoted("sequence"@) + seq![':'] + mark(false)) by {
        reveal_strlit("\",\"sequence\":");
        reveal_strlit("sequence");
        assert("\",\"sequence\":"@ =~= mark(true) + seq![',']
            + quoted("sequence"@) + seq![':'] + mark(false));
    }
    let t6 = t5 + "\",\"sequence\":"@ + decimal(it.sequence as nat);
    let m6 = m5.push(("sequence"@, value(decimal(it.sequence as nat), false)));
    lemma_next_member(
        t5,
        m5,
        true,
        "\",\"sequence\":"@,
        "sequence"@,
        decimal(it.sequence as nat),
        false,
    );
    assert(t6 + mark(false) =~= t6);
    assert(",\"stage_instance_id\":\""@ == mark(false) + seq![',']
        + quoted("stage_instance_id"@) + seq![':'] + mark(true)) by {
        reveal_strlit(",\"stage_instance_id\":\"");
        reveal_strlit("stage_instance_id");
        assert(",\"stage_instance_id\":\""@ =~= mark(false) + seq![',']
            + quoted("stage_instance_id"@) + seq![':'] + mark(true));
    }
    let t7 = t6 + ",\"stage_instance_id\":\""@ + it.stage_instance_id.text();
    let m7 = m6.push(("stage_instance_id"@, value(it.stage_instance_id.text(), true)));
    lemma_next_member(
        t6,
        m6,
        false,
        ",\"stage_instance_id\":\""@,
        "stage_instance_id"@,
        it.stage_instance_id.text(),
        true,
    );
    assert("\"}"@ == mark(true) + seq!['}']) by {
        reveal_strlit("\"}");
        assert("\"}"@ =~= mark(true) + seq!['}']);
    }
    lemma_object_ends(t7, m7, true, "\"}"@);
    assert(m7 =~= seq![
        ("event"@, it.event.text()),
        ("event_id"@, quoted(it.event_id.text())),
        ("message_digest"@, quoted(it.message_digest.text())),
        ("message_id"@, quoted(it.message_id.text())),
        ("prior_control_revision"@, decimal(it.prior_control_revision as nat)),
        ("run_id"@, quoted(it.run_id.text())),
        ("sequence"@, decimal(it.sequence as nat)),
        ("stage_instance_id"@, quoted(it.stage_instance_id.text())),
    ]);
}

/// A pipeline's record is written as an object with each of its parts, in ascending order of
/// their names.
pub proof fn lemma_pipeline_record_text(it: CanonicalCommittedPipelineEvent)
    ensures
        it.text() == object(
            seq![
                ("event"@, it.event.text()),
                ("event_id"@, quoted(it.event_id.text())),
                ("message_digest"@, quoted(it.message_digest.text())),
                ("message_id"@, quoted(it.message_id.text())),
                ("prior_control_revision"@, decimal(it.prior_control_revision as nat)),
                ("run_id"@, quoted(it.run_id.text())),
                ("sequence"@, decimal(it.sequence as nat)),
            ],
        ),
{
    assert("{\"event\":"@ == seq!['{'] + quoted("event"@) + seq![':'] + mark(false)) by {
        reveal_strlit("{\"event\":");
        reveal_strlit("event");
        assert("{\"event\":"@ =~= seq!['{'] + quoted("event"@) + seq![':'] + mark(false));
    }
    let t0 = "{\"event\":"@ + it.event.text();
    let m0 = seq![("event"@, value(it.event.text(), false))];
    lemma_first_member("{\"event\":"@, "event"@, it.event.text(), false);
    assert(t0 + mark(false) =~= t0);
    assert(",\"event_id\":\""@ == mark(false) + seq![',']
        + quoted("event_id"@) + seq![':'] + mark(true)) by {
        reveal_strlit(",\"event_id\":\"");
        reveal_strlit("event_id");
        assert(",\"event_id\":\""@ =~= mark(false) + seq![',']
            + quoted("event_id"@) + seq![':'] + mark(true));
    }
    let t1 = t0 + ",\"event_id\":\""@ + it.event_id.text();
    let m1 = m0.push(("event_id"@, value(it.event_id.text(), true)));
    lemma_next_member(
        t0,
        m0,
        false,
        ",\"event_id\":\""@,
        "event_id"@,
        it.event_id.text(),
        true,
    );
    assert("\",\"message_digest\":\""@ == mark(true) + seq![',']
        + quoted("message_digest"@) + seq![':'] + mark(true)) by {
        reveal_strlit("\",\"message_digest\":\"");
        reveal_strlit("message_digest");
        assert("\",\"message_digest\":\""@ =~= mark(true) + seq![',']
            + quoted("message_digest"@) + seq![':'] + mark(true));
    }
    let t2 = t1 + "\",\"message_digest\":\""@ + it.message_digest.text();
    let m2 = m1.push(("message_digest"@, value(it.message_digest.text(), true)));
    lemma_next_member(
        t1,
        m1,
        true,
        "\",\"message_digest\":\""@,
        "message_digest"@,
        it.message_digest.text(),
        true,
    );
    assert("\",\"message_id\":\""@ == mark(true) + seq![',']
        + quoted("message_id"@) + seq![':'] + mark(true)) by {
        reveal_strlit("\",\"message_id\":\"");
        reveal_strlit("message_id");
        assert("\",\"message_id\":\""@ =~= mark(true) + seq![',']
            + quoted("message_id"@) + seq![':'] + mark(true));
    }
    let t3 = t2 + "\",\"message_id\":\""@ + it.message_id.text();
    let m3 = m2.push(("message_id"@, value(it.message_id.text(), true)));
    lemma_next_member(
        t2,
        m2,
        true,
        "\",\"message_id\":\""@,
        "message_id"@,
        it.message_id.text(),
        true,
    );
    assert("\",\"prior_control_revision\":"@ == mark(true) + seq![',']
        + quoted("prior_control_revision"@) + seq![':'] + mark(false)) by {
        reveal_strlit("\",\"prior_control_revision\":");
        reveal_strlit("prior_control_revision");
        assert("\",\"prior_control_revision\":"@ =~= mark(true) + seq![',']
            + quoted("prior_control_revision"@) + seq![':'] + mark(false));
    }
    let t4 = t3 + "\",\"prior_control_revision\":"@ + decimal(it.prior_control_revision as nat);
    let m4 = m3.push(
        ("prior_control_revision"@, value(decimal(it.prior_control_revision as nat), false)),
    );
    lemma_next_member(
        t3,
        m3,
        true,
        "\",\"prior_control_revision\":"@,
        "prior_control_revision"@,
        decimal(it.prior_control_revision as nat),
        false,
    );
    assert(t4 + mark(false) =~= t4);
    assert(",\"run_id\":\""@ == mark(false) + seq![',']
        + quoted("run_id"@) + seq![':'] + mark(true)) by {
        reveal_strlit(",\"run_id\":\"");
        reveal_strlit("run_id");
        assert(",\"run_id\":\""@ =~= mark(false) + seq![',']
            + quoted("run_id"@) + seq![':'] + mark(true));
    }
    let t5 = t4 + ",\"run_id\":\""@ + it.run_id.text();
    let m5 = m4.push(("run_id"@, value(it.run_id.text(), true)));
    lemma_next_member(
        t4,
        m4,
        false,
        ",\"run_id\":\""@,
        "run_id"@,
        it.run_id.text(),
        true,
    );
    assert("\",\"sequence\":"@ == mark(true) + seq![',']
        + quoted("sequence"@) + seq![':'] + mark(false)) by {
        reveal_strlit("\",\"sequence\":");
        reveal_strlit("sequence");
        assert("\",\"sequence\":"@ =~= mark(true) + seq![',']
            + quoted("sequence"@) + seq![':'] + mark(false));
    }
    let t6 = t5 + "\",\"sequence\":"@ + decimal(it.sequence as nat);
    let m6 = m5.push(("sequence"@, value(decimal(it.sequence as nat), false)));
    lemma_next_member(
        t5,
        m5,
        true,
        "\",\"sequence\":"@,
        "sequence"@,
        decimal(it.sequence as nat),
        false,
    );
    assert(t6 + mark(false) =~= t6);
    assert("}"@ == mark(false) + seq!['}']) by {
        reveal_strlit("}");
        assert("}"@ =~= mark(false) + seq!['}']);
    }
    lemma_object_ends(t6, m6, false, "}"@);
    assert(m6 =~= seq![
        ("event"@, it.event.text()),
        ("event_id"@, quoted(it.event_id.text())),
        ("message_digest"@, quoted(it.message_digest.text())),
        ("message_id"@, quoted(it.message_id.text())),
        ("prior_control_revision"@, decimal(it.prior_control_revision as nat)),
        ("run_id"@, quoted(it.run_id.text())),
        ("sequence"@, decimal(it.sequence as nat)),
    ]);
}

} // verus!
