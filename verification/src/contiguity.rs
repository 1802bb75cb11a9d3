//! A run that verifies has one event for each sequence from the first to the last, over both
//! its journals.

use vstd::prelude::*;

use crate::error::StoreError;
use crate::identifier::RunId;
use crate::journal::{
    decoded_events, decoded_pipeline_events, lemma_pipeline_row_is_determined,
    lemma_stage_row_is_determined, sequences, StoredPipelineEvent, StoredStageEvent,
};
use crate::recovery::{counted, journal_end, past_taken, RunRowsView};
use crate::rows::{EventRowView, PipelineEventRowView};

verus! {

/// Where rows read as events, each row reads as its own.
pub proof fn lemma_each_decoded(rows: Seq<EventRowView>)
    ensures
        decoded_events(rows) matches Ok(stored) ==> stored.len() == rows.len() && forall|i: int|
            0 <= i < rows.len() ==> (#[trigger] rows[i]).decoded() == Ok::<
                StoredStageEvent,
                StoreError,
            >(stored[i]) && stored[i].sequence == rows[i].sequence,
    decreases rows.len(),
{
    if rows.len() > 0 && decoded_events(rows) is Ok {
        let front = rows.drop_last();
        lemma_each_decoded(front);
        lemma_stage_row_is_determined(rows.last());
        assert forall|i: int| 0 <= i < front.len() implies front[i] == #[trigger] rows[i] by {}
    }
}

/// Where rows read as pipeline events, each row reads as its own.
pub proof fn lemma_each_pipeline_decoded(rows: Seq<PipelineEventRowView>)
    ensures
        decoded_pipeline_events(rows) matches Ok(stored) ==> stored.len() == rows.len()
            && forall|i: int|
            0 <= i < rows.len() ==> (#[trigger] rows[i]).decoded() == Ok::<
                StoredPipelineEvent,
                StoreError,
            >(stored[i]) && stored[i].sequence == rows[i].sequence,
    decreases rows.len(),
{
    if rows.len() > 0 && decoded_pipeline_events(rows) is Ok {
        let front = rows.drop_last();
        lemma_each_pipeline_decoded(front);
        lemma_pipeline_row_is_determined(rows.last());
        assert forall|i: int| 0 <= i < front.len() implies front[i] == #[trigger] rows[i] by {}
    }
}

/// Counting past the taken sequences that come next: each of them is one further.
pub proof fn lemma_past_taken(taken: Seq<u64>, expected: nat, used: nat)
    requires
        used <= taken.len(),
    ensures
        ({
            let (next, passed) = past_taken(taken, expected, used);
            &&& used <= passed <= taken.len()
            &&& next == expected + (passed - used)
            &&& forall|k: int|
                used <= k < passed ==> #[trigger] taken[k] == expected + (k - used)
        }),
    decreases taken.len() - used,
{
    if used < taken.len() && taken[used as int] == expected {
        lemma_past_taken(taken, expected + 1, used + 1);
    }
}

/// One more taken sequence is passed where it is the one that comes next, and else makes no
/// difference.
pub proof fn lemma_past_taken_push(taken: Seq<u64>, last: u64, expected: nat, used: nat)
    requires
        used <= taken.len(),
    ensures
        past_taken(taken.push(last), expected, used) == (if past_taken(taken, expected, used) == (
            last as nat,
            taken.len(),
        ) {
            (last as nat + 1, taken.len() + 1)
        } else {
            past_taken(taken, expected, used)
        }),
    decreases taken.len() - used,
{
    lemma_past_taken(taken, expected, used);
    if used < taken.len() {
        if taken[used as int] == expected {
            lemma_past_taken_push(taken, last, expected + 1, used + 1);
        }
    } else {
        let longer = taken.push(last);
        assert(past_taken(longer, expected + 1, used + 1) == (expected + 1, used + 1));
    }
}

/// A sequence is that of one of the rows.
pub open spec fn row_has(rows: Seq<EventRowView>, sequence: int) -> bool {
    exists|i: int| 0 <= i < rows.len() && (#[trigger] rows[i]).sequence == sequence
}

/// A sequence is that of one of the pipeline's rows.
pub open spec fn pipeline_row_has(rows: Seq<PipelineEventRowView>, sequence: int) -> bool {
    exists|i: int| 0 <= i < rows.len() && (#[trigger] rows[i]).sequence == sequence
}

/// A sequence is one of the first `used` taken ones.
pub open spec fn taken_has(taken: Seq<u64>, used: nat, sequence: int) -> bool {
    exists|k: int| 0 <= k < used && #[trigger] taken[k] == sequence
}

/// Counting through rows accounts for every sequence up to the one expected next.
pub proof fn lemma_counted(run_id: RunId, taken: Seq<u64>, rows: Seq<EventRowView>)
    ensures
        counted(run_id, taken, rows) matches Ok((expected, used)) ==> {
            &&& used <= taken.len()
            &&& rows.len() + used + 1 == expected
            &&& forall|i: int|
                0 <= i < rows.len() ==> 1 <= (#[trigger] rows[i]).sequence < expected
            &&& forall|i: int, j: int|
                0 <= i < j < rows.len() ==> (#[trigger] rows[i]).sequence < (
                #[trigger] rows[j]).sequence
            &&& forall|k: int| 0 <= k < used ==> 1 <= #[trigger] taken[k] < expected
            &&& forall|k: int, l: int|
                0 <= k < l < used ==> #[trigger] taken[k] < #[trigger] taken[l]
            &&& forall|i: int, k: int|
                0 <= i < rows.len() && 0 <= k < used ==> (#[trigger] rows[i]).sequence
                    != #[trigger] taken[k]
            &&& forall|s: int|
                1 <= s < expected ==> row_has(rows, s) || #[trigger] taken_has(taken, used, s)
        },
    decreases rows.len(),
{
    if rows.len() > 0 && counted(run_id, taken, rows) is Ok {
        let front = rows.drop_last();
        lemma_counted(run_id, taken, front);
        let (before, used_before) = counted(run_id, taken, front)->Ok_0;
        lemma_past_taken(taken, before, used_before);
        let (here, used) = past_taken(taken, before, used_before);
        lemma_stage_row_is_determined(rows.last());
        assert(rows.last().sequence == here);
        assert forall|i: int| 0 <= i < front.len() implies front[i] == #[trigger] rows[i] by {}
        assert forall|s: int| 1 <= s < here + 1 implies row_has(rows, s) || #[trigger] taken_has(
            taken,
            used,
            s,
        ) by {
            if s == here {
                assert(rows[rows.len() - 1].sequence == s);
            } else if s < before {
                if !taken_has(taken, used, s) {
                    assert(!taken_has(taken, used_before, s));
                    assert(row_has(front, s));
                    let i = choose|i: int| 0 <= i < front.len() && front[i].sequence == s;
                    assert(rows[i].sequence == s);
                }
            } else {
                assert(taken[used_before + (s - before)] == s);
            }
        }
    }
}

/// One more taken sequence, at or after what is expected behind the rows, makes no difference
/// to counting through them.
pub proof fn lemma_counted_push_taken(
    run_id: RunId,
    taken: Seq<u64>,
    last: u64,
    rows: Seq<EventRowView>,
)
    ensures
        counted(run_id, taken, rows) matches Ok((expected, used)) ==> expected <= last
            ==> counted(run_id, taken.push(last), rows) == counted(run_id, taken, rows),
    decreases rows.len(),
{
    if rows.len() > 0 && counted(run_id, taken, rows) is Ok {
        let front = rows.drop_last();
        lemma_counted(run_id, taken, front);
        lemma_counted_push_taken(run_id, taken, last, front);
        let (before, used_before) = counted(run_id, taken, front)->Ok_0;
        lemma_past_taken(taken, before, used_before);
        lemma_past_taken_push(taken, last, before, used_before);
    }
}

/// One more event at a journal's end moves the end one on.
pub proof fn lemma_journal_end_push_event(
    run_id: RunId,
    taken: Seq<u64>,
    rows: Seq<EventRowView>,
    row: EventRowView,
)
    requires
        row.decoded() matches Ok(event) && event.run_id == run_id && journal_end(
            run_id,
            taken,
            rows,
        ) == Ok::<nat, StoreError>(event.sequence as nat),
    ensures
        journal_end(run_id, taken, rows.push(row)) == Ok::<nat, StoreError>(
            (row.decoded()->Ok_0.sequence + 1) as nat,
        ),
{
    assert(rows.push(row).drop_last() =~= rows);
    lemma_counted(run_id, taken, rows);
    let (expected, used) = counted(run_id, taken, rows)->Ok_0;
    lemma_past_taken(taken, expected, used);
}

/// One more pipeline event at a journal's end moves the end one on.
pub proof fn lemma_journal_end_push_taken(
    run_id: RunId,
    taken: Seq<u64>,
    last: u64,
    rows: Seq<EventRowView>,
)
    requires
        journal_end(run_id, taken, rows) == Ok::<nat, StoreError>(last as nat),
    ensures
        journal_end(run_id, taken.push(last), rows) == Ok::<nat, StoreError>(
            (last + 1) as nat,
        ),
{
    lemma_counted(run_id, taken, rows);
    let (expected, used) = counted(run_id, taken, rows)->Ok_0;
    lemma_past_taken(taken, expected, used);
    lemma_counted_push_taken(run_id, taken, last, rows);
    lemma_past_taken_push(taken, last, expected, used);
}

/// The sequences of a run that verifies are 1, 2, 3 and so on: each sequence up to the run's
/// next one is that of exactly one event, in one of the run's two journals.
pub proof fn lemma_sequences_are_contiguous(rows: RunRowsView, run_id: RunId)
    ensures
        rows.verified(run_id) matches Ok(next) ==> {
            &&& rows.events.len() + rows.pipeline_events.len() + 1 == next
            &&& forall|s: int|
                #![trigger row_has(rows.events, s)]
                #![trigger pipeline_row_has(rows.pipeline_events, s)]
                1 <= s < next <==> row_has(rows.events, s) || pipeline_row_has(
                    rows.pipeline_events,
                    s,
                )
            &&& forall|i: int, j: int|
                0 <= i < j < rows.events.len() ==> (#[trigger] rows.events[i]).sequence < (
                #[trigger] rows.events[j]).sequence
            &&& forall|i: int, j: int|
                0 <= i < j < rows.pipeline_events.len() ==> (
                #[trigger] rows.pipeline_events[i]).sequence < (
                #[trigger] rows.pipeline_events[j]).sequence
            &&& forall|i: int, j: int|
                0 <= i < rows.events.len() && 0 <= j < rows.pipeline_events.len() ==> (
                #[trigger] rows.events[i]).sequence != (
                #[trigger] rows.pipeline_events[j]).sequence
        },
{
    if rows.verified(run_id) is Ok {
        let stored = decoded_pipeline_events(rows.pipeline_events)->Ok_0;
        let taken = sequences(stored);
        lemma_each_pipeline_decoded(rows.pipeline_events);
        lemma_counted(run_id, taken, rows.events);
        let (expected, used) = counted(run_id, taken, rows.events)->Ok_0;
        lemma_past_taken(taken, expected, used);
        let next = rows.verified(run_id)->Ok_0;
        assert(past_taken(taken, expected, used) == (next, taken.len()));
        assert forall|i: int| 0 <= i < taken.len() implies #[trigger] taken[i]
            == rows.pipeline_events[i].sequence by {}
        assert forall|s: int|
            #![trigger row_has(rows.events, s)]
            #![trigger pipeline_row_has(rows.pipeline_events, s)]
            1 <= s < next <==> row_has(rows.events, s) || pipeline_row_has(
                rows.pipeline_events,
                s,
            ) by {
            if 1 <= s < expected && !row_has(rows.events, s) {
                assert(taken_has(taken, used, s));
                let k = choose|k: int| 0 <= k < used && #[trigger] taken[k] == s;
                assert(rows.pipeline_events[k].sequence == s);
            }
            if expected <= s < next {
                let k = used + (s - expected);
                assert(taken[k] == s);
                assert(rows.pipeline_events[k].sequence == s);
            }
            if pipeline_row_has(rows.pipeline_events, s) {
                let k = choose|k: int|
                    0 <= k < rows.pipeline_events.len() && (
                    #[trigger] rows.pipeline_events[k]).sequence == s;
                assert(taken[k] == s);
            }
        }
        assert forall|i: int, j: int| 0 <= i < j < rows.pipeline_events.len() implies (
        #[trigger] rows.pipeline_events[i]).sequence < (
        #[trigger] rows.pipeline_events[j]).sequence by {
            assert(taken[i] < taken[j]);
        }
        assert forall|i: int, j: int|
            0 <= i < rows.events.len() && 0 <= j < rows.pipeline_events.len() implies (
        #[trigger] rows.events[i]).sequence != (#[trigger] rows.pipeline_events[j]).sequence by {
            assert(taken[j] == rows.pipeline_events[j].sequence);
        }
    }
}

/// Sequences are in strictly ascending order.
pub open spec fn strictly_ascending(sequences: Seq<u64>) -> bool {
    forall|i: int, j: int|
        0 <= i < j < sequences.len() ==> #[trigger] sequences[i] < #[trigger] sequences[j]
}

/// Where every sequence up to a target is taken and the target is not, counting past the taken
/// ones leads to the target.
proof fn lemma_past_taken_reaches(taken: Seq<u64>, expected: nat, used: nat, target: nat)
    requires
        strictly_ascending(taken),
        used <= taken.len(),
        expected <= target,
        forall|k: int| 0 <= k < used ==> #[trigger] taken[k] < expected,
        forall|k: int| used <= k < taken.len() ==> #[trigger] taken[k] >= expected,
        forall|s: int| expected <= s < target ==> #[trigger] taken_has(taken, taken.len(), s),
        !taken_has(taken, taken.len(), target as int),
    ensures
        past_taken(taken, expected, used) == (target, (used + (target - expected)) as nat),
    decreases target - expected,
{
    if expected < target {
        assert(taken_has(taken, taken.len(), expected as int));
        let k = choose|k: int| 0 <= k < taken.len() && #[trigger] taken[k] == expected;
        assert(taken[used as int] == expected);
        lemma_past_taken_reaches(taken, expected + 1, used + 1, target);
    } else if used < taken.len() {
        assert(taken[used as int] != expected);
    }
}

/// The rows of both journals account for each sequence up to `next` once, and every row of the
/// stage journal reads as an event of the run.
pub open spec fn accounts_for(
    run_id: RunId,
    taken: Seq<u64>,
    rows: Seq<EventRowView>,
    next: nat,
) -> bool {
    &&& strictly_ascending(taken)
    &&& forall|i: int, j: int|
        0 <= i < j < rows.len() ==> (#[trigger] rows[i]).sequence < (#[trigger] rows[j]).sequence
    &&& forall|i: int|
        0 <= i < rows.len() ==> (#[trigger] rows[i]).decoded() is Ok
            && rows[i].decoded()->Ok_0.run_id == run_id
    &&& forall|i: int, k: int|
        0 <= i < rows.len() && 0 <= k < taken.len() ==> (#[trigger] rows[i]).sequence
            != #[trigger] taken[k]
    &&& forall|s: int|
        #![trigger row_has(rows, s)]
        #![trigger taken_has(taken, taken.len(), s)]
        1 <= s < next <==> row_has(rows, s) || taken_has(taken, taken.len(), s)
}

proof fn lemma_accounted_is_counted(
    run_id: RunId,
    taken: Seq<u64>,
    rows: Seq<EventRowView>,
    next: nat,
    end: int,
)
    requires
        accounts_for(run_id, taken, rows, next),
        0 <= end <= rows.len(),
    ensures
        counted(run_id, taken, rows.take(end)) matches Ok((expected, used)) && used <= taken.len()
            && expected == (if end == 0 {
            1
        } else {
            rows[end - 1].sequence + 1
        }) && (forall|k: int| 0 <= k < used ==> #[trigger] taken[k] < expected) && (forall|k: int|
            used <= k < taken.len() ==> #[trigger] taken[k] >= expected),
    decreases end,
{
    if end == 0 {
        assert forall|k: int| 0 <= k < taken.len() implies #[trigger] taken[k] >= 1 by {
            assert(taken_has(taken, taken.len(), taken[k] as int));
        }
    } else {
        let front = rows.take(end - 1);
        lemma_accounted_is_counted(run_id, taken, rows, next, end - 1);
        assert(rows.take(end).drop_last() =~= front);
        let (expected, used) = counted(run_id, taken, front)->Ok_0;
        let last = rows[end - 1];
        lemma_stage_row_is_determined(last);
        assert(row_has(rows, last.sequence as int));
        if end >= 2 {
            assert(rows[end - 2].sequence < last.sequence);
        }
        let target = last.sequence as nat;
        assert forall|s: int| expected <= s < target implies #[trigger] taken_has(
            taken,
            taken.len(),
            s,
        ) by {
            if row_has(rows, s) {
                let i = choose|i: int|
                    0 <= i < rows.len() && (#[trigger] rows[i]).sequence == s;
                if i < end - 2 {
                    assert(rows[i].sequence < rows[end - 2].sequence);
                } else if i > end - 1 {
                    assert(rows[end - 1].sequence < rows[i].sequence);
                }
            }
        }
        lemma_past_taken_reaches(taken, expected, used, target);
        lemma_past_taken(taken, expected, used);
        let passed = (used + (target - expected)) as nat;
        assert forall|k: int| passed <= k < taken.len() implies #[trigger] taken[k] >= target
            + 1 by {
            if passed > used {
                assert(taken[passed - 1] < taken[k]);
            }
        }
    }
}

/// A journal that accounts for each sequence once ends where it should.
pub proof fn lemma_accounted_journal_ends(
    run_id: RunId,
    taken: Seq<u64>,
    rows: Seq<EventRowView>,
    next: nat,
)
    requires
        accounts_for(run_id, taken, rows, next),
        next >= 1,
    ensures
        journal_end(run_id, taken, rows) == Ok::<nat, StoreError>(next),
{
    lemma_accounted_is_counted(run_id, taken, rows, next, rows.len() as int);
    assert(rows.take(rows.len() as int) =~= rows);
    let (expected, used) = counted(run_id, taken, rows)->Ok_0;
    if rows.len() > 0 {
        assert(row_has(rows, rows[rows.len() - 1].sequence as int));
    }
    assert forall|s: int| expected <= s < next implies #[trigger] taken_has(
        taken,
        taken.len(),
        s,
    ) by {
        if row_has(rows, s) {
            let i = choose|i: int| 0 <= i < rows.len() && (#[trigger] rows[i]).sequence == s;
            assert(rows[i].sequence <= rows[rows.len() - 1].sequence);
        }
    }
    assert(!taken_has(taken, taken.len(), next as int));
    lemma_past_taken_reaches(taken, expected, used, next);
    lemma_past_taken(taken, expected, used);
    let passed = (used + (next - expected)) as nat;
    if passed < taken.len() {
        assert(taken_has(taken, taken.len(), taken[passed as int] as int));
        if passed > used {
            assert(taken[passed - 1] < taken[passed as int]);
        }
    }
}

/// A run verifies exactly where its counter is one past its journal, its pipeline journal
/// holds together, and its two journals account for each sequence up to the counter once.
pub proof fn lemma_run_verifies_exactly_where_accounted(
    rows: RunRowsView,
    run_id: RunId,
    next: nat,
)
    ensures
        rows.verified(run_id) == Ok::<nat, StoreError>(next) <==> {
            &&& rows.run matches Some(run)
            &&& run.next_event_sequence == next
            &&& next >= 1
            &&& rows.verified_pipeline_journal() matches Ok(taken)
            &&& accounts_for(run_id, taken, rows.events, next)
        },
{
    if rows.verified(run_id) == Ok::<nat, StoreError>(next) {
        let taken = rows.verified_pipeline_journal()->Ok_0;
        lemma_sequences_are_contiguous(rows, run_id);
        lemma_each_pipeline_decoded(rows.pipeline_events);
        lemma_counted(run_id, taken, rows.events);
        let (expected, used) = counted(run_id, taken, rows.events)->Ok_0;
        lemma_past_taken(taken, expected, used);
        lemma_counted_rows_read(run_id, taken, rows.events);
        assert forall|i: int| 0 <= i < taken.len() implies #[trigger] taken[i]
            == rows.pipeline_events[i].sequence by {}
        assert forall|i: int, j: int| 0 <= i < j < taken.len() implies #[trigger] taken[i]
            < #[trigger] taken[j] by {
            assert(rows.pipeline_events[i].sequence < rows.pipeline_events[j].sequence);
        }
        assert forall|s: int|
            pipeline_row_has(rows.pipeline_events, s) <==> #[trigger] taken_has(
                taken,
                taken.len(),
                s,
            ) by {
            if pipeline_row_has(rows.pipeline_events, s) {
                let k = choose|k: int|
                    0 <= k < rows.pipeline_events.len() && (
                    #[trigger] rows.pipeline_events[k]).sequence == s;
                assert(taken[k] == s);
            }
            if taken_has(taken, taken.len(), s) {
                let k = choose|k: int| 0 <= k < taken.len() && #[trigger] taken[k] == s;
                assert(rows.pipeline_events[k].sequence == s);
            }
        }
        assert forall|i: int, k: int|
            0 <= i < rows.events.len() && 0 <= k < taken.len() implies (
        #[trigger] rows.events[i]).sequence != #[trigger] taken[k] by {
            assert(rows.events[i].sequence != rows.pipeline_events[k].sequence);
        }
    }
    if rows.run is Some && rows.run->Some_0.next_event_sequence == next && next >= 1
        && rows.verified_pipeline_journal() is Ok && accounts_for(
        run_id,
        rows.verified_pipeline_journal()->Ok_0,
        rows.events,
        next,
    ) {
        lemma_accounted_journal_ends(
            run_id,
            rows.verified_pipeline_journal()->Ok_0,
            rows.events,
            next,
        );
    }
}

proof fn lemma_counted_rows_read(run_id: RunId, taken: Seq<u64>, rows: Seq<EventRowView>)
    ensures
        counted(run_id, taken, rows) is Ok ==> forall|i: int|
            0 <= i < rows.len() ==> (#[trigger] rows[i]).decoded() is Ok
                && rows[i].decoded()->Ok_0.run_id == run_id,
    decreases rows.len(),
{
    if rows.len() > 0 && counted(run_id, taken, rows) is Ok {
        let front = rows.drop_last();
        lemma_counted_rows_read(run_id, taken, front);
        assert forall|i: int| 0 <= i < front.len() implies front[i] == #[trigger] rows[i] by {}
    }
}

proof fn lemma_counted_more_taken(
    run_id: RunId,
    taken: Seq<u64>,
    rows: Seq<EventRowView>,
    used: nat,
    end: nat,
)
    requires
        used <= end <= taken.len(),
        counted(run_id, taken.take(used as int), rows) matches Ok((expected, _)) && forall|k: int|
            used <= k < taken.len() ==> expected <= #[trigger] taken[k],
    ensures
        counted(run_id, taken.take(end as int), rows) == counted(
            run_id,
            taken.take(used as int),
            rows,
        ),
    decreases end - used,
{
    if used < end {
        let before = (end - 1) as nat;
        lemma_counted_more_taken(run_id, taken, rows, used, before);
        assert(taken.take(end as int) =~= taken.take(before as int).push(taken[before as int]));
        lemma_counted_push_taken(
            run_id,
            taken.take(before as int),
            taken[before as int],
            rows,
        );
    }
}

proof fn lemma_counting_stops(
    run_id: RunId,
    taken: Seq<u64>,
    rows: Seq<EventRowView>,
    end: int,
    error: StoreError,
)
    requires
        0 <= end <= rows.len(),
        counted(run_id, taken, rows.take(end)) == Err::<(nat, nat), StoreError>(error),
    ensures
        counted(run_id, taken, rows) == Err::<(nat, nat), StoreError>(error),
    decreases rows.len(),
{
    if end < rows.len() {
        assert(rows.drop_last().take(end) =~= rows.take(end));
        lemma_counting_stops(run_id, taken, rows.drop_last(), end, error);
    } else {
        assert(rows.take(end) =~= rows);
    }
}

/// Where the first rows of both journals account for each sequence up to `next` once, and the
/// next sequence of the pipeline's is a later one, what comes then decides: a row of the stage
/// journal that cannot be read says why, one of another run or with another sequence breaks the
/// sequence, and without one a sequence of the pipeline's that is left over does; otherwise the
/// counter has to be `next`.
pub proof fn lemma_where_a_run_breaks_off(
    rows: RunRowsView,
    run_id: RunId,
    good: int,
    used: int,
    next: nat,
)
    requires
        rows.run matches Some(run) && run.next_event_sequence >= 0,
        rows.verified_pipeline_journal() is Ok,
        strictly_ascending(rows.verified_pipeline_journal()->Ok_0),
        0 <= good <= rows.events.len(),
        0 <= used <= rows.verified_pipeline_journal()->Ok_0.len(),
        used < rows.verified_pipeline_journal()->Ok_0.len()
            ==> rows.verified_pipeline_journal()->Ok_0[used] > next,
        next >= 1,
        accounts_for(
            run_id,
            rows.verified_pipeline_journal()->Ok_0.take(used),
            rows.events.take(good),
            next,
        ),
    ensures
        good < rows.events.len() ==> match rows.events[good].decoded() {
            Err(error) => rows.verified(run_id) == Err::<nat, StoreError>(error),
            Ok(event) => event.run_id != run_id || event.sequence != next ==> rows.verified(run_id)
                == Err::<nat, StoreError>(
                StoreError::CorruptData("run event sequence is not contiguous"),
            ),
        },
        good == rows.events.len() && used < rows.verified_pipeline_journal()->Ok_0.len()
            ==> rows.verified(run_id) == Err::<nat, StoreError>(
            StoreError::CorruptData("run event sequence is not contiguous"),
        ),
        good == rows.events.len() && used == rows.verified_pipeline_journal()->Ok_0.len()
            ==> rows.verified(run_id) == (if rows.run->Some_0.next_event_sequence == next {
            Ok(next)
        } else {
            Err(StoreError::CorruptData("run sequence counter does not match the journal"))
        }),
{
    let taken = rows.verified_pipeline_journal()->Ok_0;
    let first = taken.take(used);
    let front = rows.events.take(good);
    lemma_accounted_journal_ends(run_id, first, front, next);
    lemma_counted(run_id, first, front);
    let (expected, passed) = counted(run_id, first, front)->Ok_0;
    lemma_past_taken(first, expected, passed);
    assert forall|k: int| used <= k < taken.len() implies expected <= #[trigger] taken[k] by {
        assert(taken[used] <= taken[k]);
    }
    lemma_counted_more_taken(run_id, taken, front, used as nat, taken.len());
    assert(taken.take(taken.len() as int) =~= taken);
    assert forall|k: int| passed <= k < used implies #[trigger] taken[k] == expected + (k
        - passed) by {
        assert(first[k] == taken[k]);
    }
    lemma_past_taken_stops(taken, expected, passed, used as nat);
    if good < rows.events.len() {
        let longer = rows.events.take(good + 1);
        assert(longer.drop_last() =~= front);
        assert(longer.last() == rows.events[good]);
        if let Err(error) = counted(run_id, taken, longer) {
            lemma_counting_stops(run_id, taken, rows.events, good + 1, error);
        }
    } else {
        assert(front =~= rows.events);
    }
}

proof fn lemma_past_taken_stops(taken: Seq<u64>, expected: nat, from: nat, used: nat)
    requires
        from <= used <= taken.len(),
        forall|k: int| from <= k < used ==> #[trigger] taken[k] == expected + (k - from),
        used < taken.len() ==> taken[used as int] != expected + (used - from),
    ensures
        past_taken(taken, expected, from) == ((expected + (used - from)) as nat, used),
    decreases used - from,
{
    if from < used {
        assert(taken[from as int] == expected);
        lemma_past_taken_stops(taken, expected + 1, from + 1, used);
    }
}

} // verus!
