//! Finding, counting and ordering the rows of a store.

use vstd::prelude::*;

use crate::journal::{event_rows, pipeline_event_rows};
use crate::model::{
    by_pipeline_sequence, by_sequence, event_for_message, event_in_run, event_named, event_of_stage,
    pipeline_event_for_message, pipeline_event_in_run, pipeline_event_named, pipeline_of, run_named,
    stage_in_run, stage_named,
};
use crate::rows::{RawEventRow, RawPipelineEventRow};
use crate::select::{
    count, first_index, lemma_is_first_index, lemma_no_first_index, lemma_placed_at, ordered,
    placed,
};
use crate::store::SqliteStore;

verus! {

impl SqliteStore {
    pub(crate) fn find_run(&self, name: &str) -> (index: Option<usize>)
        ensures
            match index {
                Some(i) => i < self.runs.len() && first_index(
                    self@.runs,
                    run_named(name@),
                ) == Some(i as int),
                None => first_index(self@.runs, run_named(name@)) is None,
            },
    {
        let ghost rows = self@.runs;
        let wanted = name.to_owned();
        let mut i: usize = 0;
        while i < self.runs.len()
            invariant
                wanted@ == name@,
                i <= self.runs.len(),
                rows == self@.runs,
                rows.len() == self.runs.len(),
                forall|k: int| 0 <= k < i ==> !run_named(name@)(#[trigger] rows[k]),
            decreases self.runs.len() - i,
        {
            assert(rows[i as int] == self.runs@[i as int]@);
            if self.runs[i].run_id == wanted {
                proof {
                    lemma_is_first_index(rows, run_named(name@), i as int);
                }
                return Some(i);
            }
            i = i + 1;
        }
        proof {
            lemma_no_first_index(rows, run_named(name@));
        }
        None
    }

    pub(crate) fn find_stage(&self, name: &str) -> (index: Option<usize>)
        ensures
            match index {
                Some(i) => i < self.stage_snapshots.len() && first_index(
                    self@.stage_snapshots,
                    stage_named(name@),
                ) == Some(i as int),
                None => first_index(self@.stage_snapshots, stage_named(name@)) is None,
            },
    {
        let ghost rows = self@.stage_snapshots;
        let wanted = name.to_owned();
        let mut i: usize = 0;
        while i < self.stage_snapshots.len()
            invariant
                wanted@ == name@,
                i <= self.stage_snapshots.len(),
                rows == self@.stage_snapshots,
                rows.len() == self.stage_snapshots.len(),
                forall|k: int| 0 <= k < i ==> !stage_named(name@)(#[trigger] rows[k]),
            decreases self.stage_snapshots.len() - i,
        {
            assert(rows[i as int] == self.stage_snapshots@[i as int]@);
            if self.stage_snapshots[i].stage_instance_id == wanted {
                proof {
                    lemma_is_first_index(rows, stage_named(name@), i as int);
                }
                return Some(i);
            }
            i = i + 1;
        }
        proof {
            lemma_no_first_index(rows, stage_named(name@));
        }
        None
    }

    pub(crate) fn find_pipeline(&self, name: &str) -> (index: Option<usize>)
        ensures
            match index {
                Some(i) => i < self.pipeline_snapshots.len() && first_index(
                    self@.pipeline_snapshots,
                    pipeline_of(name@),
                ) == Some(i as int),
                None => first_index(self@.pipeline_snapshots, pipeline_of(name@)) is None,
            },
    {
        let ghost rows = self@.pipeline_snapshots;
        let wanted = name.to_owned();
        let mut i: usize = 0;
        while i < self.pipeline_snapshots.len()
            invariant
                wanted@ == name@,
                i <= self.pipeline_snapshots.len(),
                rows == self@.pipeline_snapshots,
                rows.len() == self.pipeline_snapshots.len(),
                forall|k: int| 0 <= k < i ==> !pipeline_of(name@)(#[trigger] rows[k]),
            decreases self.pipeline_snapshots.len() - i,
        {
            assert(rows[i as int] == self.pipeline_snapshots@[i as int]@);
            if self.pipeline_snapshots[i].run_id == wanted {
                proof {
                    lemma_is_first_index(rows, pipeline_of(name@), i as int);
                }
                return Some(i);
            }
            i = i + 1;
        }
        proof {
            lemma_no_first_index(rows, pipeline_of(name@));
        }
        None
    }

    pub(crate) fn find_message(&self, name: &str) -> (index: Option<usize>)
        ensures
            match index {
                Some(i) => i < self.events.len() && first_index(
                    self@.events,
                    event_for_message(name@),
                ) == Some(i as int),
                None => first_index(self@.events, event_for_message(name@)) is None,
            },
    {
        let ghost rows = self@.events;
        let wanted = name.to_owned();
        let mut i: usize = 0;
        while i < self.events.len()
            invariant
                wanted@ == name@,
                i <= self.events.len(),
                rows == self@.events,
                rows.len() == self.events.len(),
                forall|k: int| 0 <= k < i ==> !event_for_message(name@)(#[trigger] rows[k]),
            decreases self.events.len() - i,
        {
            assert(rows[i as int] == self.events@[i as int]@);
            if self.events[i].message_id == wanted {
                proof {
                    lemma_is_first_index(rows, event_for_message(name@), i as int);
                }
                return Some(i);
            }
            i = i + 1;
        }
        proof {
            lemma_no_first_index(rows, event_for_message(name@));
        }
        None
    }

    pub(crate) fn find_event(&self, name: &str) -> (index: Option<usize>)
        ensures
            match index {
                Some(i) => i < self.events.len() && first_index(
                    self@.events,
                    event_named(name@),
                ) == Some(i as int),
                None => first_index(self@.events, event_named(name@)) is None,
            },
    {
        let ghost rows = self@.events;
        let wanted = name.to_owned();
        let mut i: usize = 0;
        while i < self.events.len()
            invariant
                wanted@ == name@,
                i <= self.events.len(),
                rows == self@.events,
                rows.len() == self.events.len(),
                forall|k: int| 0 <= k < i ==> !event_named(name@)(#[trigger] rows[k]),
            decreases self.events.len() - i,
        {
            assert(rows[i as int] == self.events@[i as int]@);
            if self.events[i].event_id == wanted {
                proof {
                    lemma_is_first_index(rows, event_named(name@), i as int);
                }
                return Some(i);
            }
            i = i + 1;
        }
        proof {
            lemma_no_first_index(rows, event_named(name@));
        }
        None
    }

    pub(crate) fn find_pipeline_message(&self, name: &str) -> (index: Option<usize>)
        ensures
            match index {
                Some(i) => i < self.pipeline_events.len() && first_index(
                    self@.pipeline_events,
                    pipeline_event_for_message(name@),
                ) == Some(i as int),
                None => first_index(
                    self@.pipeline_events,
                    pipeline_event_for_message(name@),
                ) is None,
            },
    {
        let ghost rows = self@.pipeline_events;
        let wanted = name.to_owned();
        let mut i: usize = 0;
        while i < self.pipeline_events.len()
            invariant
                wanted@ == name@,
                i <= self.pipeline_events.len(),
                rows == self@.pipeline_events,
                rows.len() == self.pipeline_events.len(),
                forall|k: int|
                    0 <= k < i ==> !pipeline_event_for_message(name@)(#[trigger] rows[k]),
            decreases self.pipeline_events.len() - i,
        {
            assert(rows[i as int] == self.pipeline_events@[i as int]@);
            if self.pipeline_events[i].message_id == wanted {
                proof {
                    lemma_is_first_index(rows, pipeline_event_for_message(name@), i as int);
                }
                return Some(i);
            }
            i = i + 1;
        }
        proof {
            lemma_no_first_index(rows, pipeline_event_for_message(name@));
        }
        None
    }

    pub(crate) fn find_pipeline_event(&self, name: &str) -> (index: Option<usize>)
        ensures
            match index {
                Some(i) => i < self.pipeline_events.len() && first_index(
                    self@.pipeline_events,
                    pipeline_event_named(name@),
                ) == Some(i as int),
                None => first_index(self@.pipeline_events, pipeline_event_named(name@)) is None,
            },
    {
        let ghost rows = self@.pipeline_events;
        let wanted = name.to_owned();
        let mut i: usize = 0;
        while i < self.pipeline_events.len()
            invariant
                wanted@ == name@,
                i <= self.pipeline_events.len(),
                rows == self@.pipeline_events,
                rows.len() == self.pipeline_events.len(),
                forall|k: int| 0 <= k < i ==> !pipeline_event_named(name@)(#[trigger] rows[k]),
            decreases self.pipeline_events.len() - i,
        {
            assert(rows[i as int] == self.pipeline_events@[i as int]@);
            if self.pipeline_events[i].event_id == wanted {
                proof {
                    lemma_is_first_index(rows, pipeline_event_named(name@), i as int);
                }
                return Some(i);
            }
            i = i + 1;
        }
        proof {
            lemma_no_first_index(rows, pipeline_event_named(name@));
        }
        None
    }

    pub(crate) fn count_stages(&self, name: &str) -> (number: u64)
        ensures
            number == count(self@.stage_snapshots, stage_in_run(name@)),
    {
        let ghost rows = self@.stage_snapshots;
        let wanted = name.to_owned();
        let mut number: u64 = 0;
        let mut i: usize = 0;
        while i < self.stage_snapshots.len()
            invariant
                wanted@ == name@,
                i <= self.stage_snapshots.len(),
                rows == self@.stage_snapshots,
                rows.len() == self.stage_snapshots.len(),
                number <= i,
                number == count(rows.take(i as int), stage_in_run(name@)),
            decreases self.stage_snapshots.len() - i,
        {
            assert(rows[i as int] == self.stage_snapshots@[i as int]@);
            assert(rows.take(i + 1).drop_last() =~= rows.take(i as int));
            if self.stage_snapshots[i].run_id == wanted {
                number = number + 1;
            }
            i = i + 1;
        }
        assert(rows.take(i as int) =~= rows);
        number
    }

    pub(crate) fn count_events(&self, name: &str) -> (number: u64)
        ensures
            number == count(self@.events, event_in_run(name@)),
    {
        let ghost rows = self@.events;
        let wanted = name.to_owned();
        let mut number: u64 = 0;
        let mut i: usize = 0;
        while i < self.events.len()
            invariant
                wanted@ == name@,
                i <= self.events.len(),
                rows == self@.events,
                rows.len() == self.events.len(),
                number <= i,
                number == count(rows.take(i as int), event_in_run(name@)),
            decreases self.events.len() - i,
        {
            assert(rows[i as int] == self.events@[i as int]@);
            assert(rows.take(i + 1).drop_last() =~= rows.take(i as int));
            if self.events[i].run_id == wanted {
                number = number + 1;
            }
            i = i + 1;
        }
        assert(rows.take(i as int) =~= rows);
        number
    }

    pub(crate) fn select_run_events(&self, run: &String) -> (rows: Vec<RawEventRow>)
        ensures
            event_rows(rows@) == ordered(self@.events, event_in_run(run@), by_sequence()),
    {
        let ghost table = self@.events;
        let mut rows: Vec<RawEventRow> = Vec::new();
        let mut i: usize = 0;
        assert(event_rows(rows@) =~= Seq::empty());
        while i < self.events.len()
            invariant
                i <= self.events.len(),
                table == self@.events,
                table.len() == self.events.len(),
                event_rows(rows@) == ordered(
                    table.take(i as int),
                    event_in_run(run@),
                    by_sequence(),
                ),
            decreases self.events.len() - i,
        {
            assert(table[i as int] == self.events@[i as int]@);
            assert(table.take(i + 1).drop_last() =~= table.take(i as int));
            if self.events[i].run_id == *run {
                place_event(&mut rows, self.events[i].copy());
            }
            i = i + 1;
        }
        assert(table.take(i as int) =~= table);
        rows
    }

    pub(crate) fn select_stage_events(&self, run: &String, stage: &String) -> (rows: Vec<
        RawEventRow,
    >)
        ensures
            event_rows(rows@) == ordered(self@.events, event_of_stage(run@, stage@), by_sequence()),
    {
        let ghost table = self@.events;
        let mut rows: Vec<RawEventRow> = Vec::new();
        let mut i: usize = 0;
        assert(event_rows(rows@) =~= Seq::empty());
        while i < self.events.len()
            invariant
                i <= self.events.len(),
                table == self@.events,
                table.len() == self.events.len(),
                event_rows(rows@) == ordered(
                    table.take(i as int),
                    event_of_stage(run@, stage@),
                    by_sequence(),
                ),
            decreases self.events.len() - i,
        {
            assert(table[i as int] == self.events@[i as int]@);
            assert(table.take(i + 1).drop_last() =~= table.take(i as int));
            if self.events[i].run_id == *run && self.events[i].stage_instance_id == *stage {
                place_event(&mut rows, self.events[i].copy());
            }
            i = i + 1;
        }
        assert(table.take(i as int) =~= table);
        rows
    }

    pub(crate) fn select_pipeline_events(&self, run: &String) -> (rows: Vec<RawPipelineEventRow>)
        ensures
            pipeline_event_rows(rows@) == ordered(
                self@.pipeline_events,
                pipeline_event_in_run(run@),
                by_pipeline_sequence(),
            ),
    {
        let ghost table = self@.pipeline_events;
        let mut rows: Vec<RawPipelineEventRow> = Vec::new();
        let mut i: usize = 0;
        assert(pipeline_event_rows(rows@) =~= Seq::empty());
        while i < self.pipeline_events.len()
            invariant
                i <= self.pipeline_events.len(),
                table == self@.pipeline_events,
                table.len() == self.pipeline_events.len(),
                pipeline_event_rows(rows@) == ordered(
                    table.take(i as int),
                    pipeline_event_in_run(run@),
                    by_pipeline_sequence(),
                ),
            decreases self.pipeline_events.len() - i,
        {
            assert(table[i as int] == self.pipeline_events@[i as int]@);
            assert(table.take(i + 1).drop_last() =~= table.take(i as int));
            if self.pipeline_events[i].run_id == *run {
                place_pipeline_event(&mut rows, self.pipeline_events[i].copy());
            }
            i = i + 1;
        }
        assert(table.take(i as int) =~= table);
        rows
    }
}

fn place_event(rows: &mut Vec<RawEventRow>, row: RawEventRow)
    ensures
        event_rows(final(rows)@) == placed(event_rows(old(rows)@), row@, by_sequence()),
{
    let ghost before = event_rows(rows@);
    let ghost view = row@;
    let mut at: usize = rows.len();
    while at > 0 && rows[at - 1].sequence > row.sequence
        invariant
            at <= rows.len(),
            before == event_rows(rows@),
            view == row@,
            forall|k: int|
                at <= k < before.len() ==> by_sequence()(#[trigger] before[k]) > by_sequence()(
                    view,
                ),
        decreases at,
    {
        at = at - 1;
        assert(before[at as int] == rows@[at as int]@);
    }
    proof {
        if at > 0 {
            assert(before[at - 1] == rows@[at - 1]@);
        }
        lemma_placed_at(before, view, by_sequence(), at as int);
    }
    rows.insert(at, row);
    assert(event_rows(rows@) =~= before.insert(at as int, view));
}

fn place_pipeline_event(rows: &mut Vec<RawPipelineEventRow>, row: RawPipelineEventRow)
    ensures
        pipeline_event_rows(final(rows)@) == placed(
            pipeline_event_rows(old(rows)@),
            row@,
            by_pipeline_sequence(),
        ),
{
    let ghost before = pipeline_event_rows(rows@);
    let ghost view = row@;
    let mut at: usize = rows.len();
    while at > 0 && rows[at - 1].sequence > row.sequence
        invariant
            at <= rows.len(),
            before == pipeline_event_rows(rows@),
            view == row@,
            forall|k: int|
                at <= k < before.len() ==> by_pipeline_sequence()(#[trigger] before[k])
                    > by_pipeline_sequence()(view),
        decreases at,
    {
        at = at - 1;
        assert(before[at as int] == rows@[at as int]@);
    }
    proof {
        if at > 0 {
            assert(before[at - 1] == rows@[at - 1]@);
        }
        lemma_placed_at(before, view, by_pipeline_sequence(), at as int);
    }
    rows.insert(at, row);
    assert(pipeline_event_rows(rows@) =~= before.insert(at as int, view));
}

} // verus!
