use vstd::prelude::*;
use crate::consumer::StopReason;

verus! {

/// How a consumer's task ended, as its join reports it.
#[derive(Debug, Clone, Copy, PartialEq, Eq, Structural)]
pub enum TaskEnd {
    /// The consumer ran to its end and stopped for this reason.
    Stopped(StopReason),
    /// The task died before its consumer could stop.
    Aborted,
}

pub open spec fn end_is_clean(e: TaskEnd) -> bool {
    e == TaskEnd::Stopped(StopReason::Cancelled)
}

/// One supervised consumer task: its queue, whether it was told to stop,
/// and how it ended once joined.
pub struct EntryModel {
    pub queue: Seq<char>,
    pub cancelled: bool,
    pub end: Option<TaskEnd>,
}

pub open spec fn joined(e: EntryModel) -> bool {
    e.end is Some
}

pub open spec fn failed(e: EntryModel) -> bool {
    e.end matches Some(x) && !end_is_clean(x)
}

/// The queues whose consumers ended other than by cancellation, in order.
pub open spec fn failed_queues(es: Seq<EntryModel>) -> Seq<Seq<char>>
    decreases es.len(),
{
    if es.len() == 0 {
        Seq::empty()
    } else {
        let rest = failed_queues(es.drop_last());
        if failed(es.last()) {
            rest.push(es.last().queue)
        } else {
            rest
        }
    }
}

/// The result of a whole run: clean when every consumer stopped by
/// cancellation; otherwise the queues whose consumers failed.
#[derive(Debug, PartialEq, Eq)]
pub struct AggregateResult {
    pub failed: Vec<String>,
}

impl AggregateResult {
    pub open spec fn failed_view(&self) -> Seq<Seq<char>> {
        self.failed@.map_values(|s: String| s@)
    }

    pub fn is_clean(&self) -> (r: bool)
        ensures
            r == (self.failed@.len() == 0),
    {
        self.failed.len() == 0
    }
}

struct Entry {
    queue: String,
    cancelled: bool,
    end: Option<TaskEnd>,
}

impl View for Entry {
    type V = EntryModel;

    closed spec fn view(&self) -> EntryModel {
        EntryModel { queue: self.queue@, cancelled: self.cancelled, end: self.end }
    }
}

/// Keeps account of the consumer tasks of a run: one per queue, each told to
/// stop once and joined once, and the run's result only when all are joined.
pub struct Supervisor {
    entries: Vec<Entry>,
}

impl View for Supervisor {
    type V = Seq<EntryModel>;

    closed spec fn view(&self) -> Seq<EntryModel> {
        self.entries@.map_values(|e: Entry| e@)
    }
}

impl Supervisor {
    /// One live task for each queue, in order.
    pub fn new(queues: &Vec<String>) -> (r: Supervisor)
        ensures
            r@.len() == queues@.len(),
            forall|i: int|
                0 <= i < queues@.len() ==> (#[trigger] r@[i]) == (EntryModel {
                    queue: queues@[i]@,
                    cancelled: false,
                    end: None,
                }),
    {
        let mut entries: Vec<Entry> = Vec::new();
        let mut i: usize = 0;
        while i < queues.len()
            invariant
                0 <= i <= queues@.len(),
                entries@.len() == i,
                forall|k: int|
                    0 <= k < i ==> (#[trigger] entries@[k])@ == (EntryModel {
                        queue: queues@[k]@,
                        cancelled: false,
                        end: None,
                    }),
            decreases queues@.len() - i,
        {
            entries.push(Entry { queue: queues[i].clone(), cancelled: false, end: None });
            i += 1;
        }
        Supervisor { entries }
    }

    pub fn len(&self) -> (r: usize)
        ensures
            r == self@.len(),
    {
        self.entries.len()
    }

    /// Starts the shutdown: returns, in order, the tasks that still run and
    /// were not told to stop yet, which the caller cancels; afterwards every
    /// task has been told.
    pub fn cancel_all(&mut self) -> (r: Vec<usize>)
        ensures
            final(self)@.len() == old(self)@.len(),
            forall|i: int|
                0 <= i < old(self)@.len() ==> (#[trigger] final(self)@[i]) == (EntryModel {
                    cancelled: true,
                    ..old(self)@[i]
                }),
            forall|k: int| 0 <= k < r@.len() ==> (#[trigger] r@[k]) < old(self)@.len(),
            forall|k: int, l: int| 0 <= k < l < r@.len() ==> r@[k] < r@[l],
            forall|i: int|
                0 <= i < old(self)@.len() ==> (r@.contains(i as usize) <==> !(#[trigger] old(
                    self,
                )@[i]).cancelled && old(self)@[i].end is None),
    {
        let ghost before = self@;
        let mut r: Vec<usize> = Vec::new();
        let mut i: usize = 0;
        while i < self.entries.len()
            invariant
                self@.len() == before.len(),
                0 <= i <= before.len(),
                forall|k: int|
                    0 <= k < i ==> (#[trigger] self@[k]) == (EntryModel {
                        cancelled: true,
                        ..before[k]
                    }),
                forall|k: int| i <= k < before.len() ==> (#[trigger] self@[k]) == before[k],
                forall|k: int| 0 <= k < r@.len() ==> (#[trigger] r@[k]) < i,
                forall|k: int, l: int| 0 <= k < l < r@.len() ==> r@[k] < r@[l],
                forall|j: int|
                    0 <= j < before.len() ==> (r@.contains(j as usize) <==> j < i && !(
                    #[trigger] before[j]).cancelled && before[j].end is None),
            decreases before.len() - i,
        {
            let ghost old_view = self@;
            let ghost old_r = r@;
            assert(self@[i as int] == before[i as int]);
            let live = !self.entries[i].cancelled && self.entries[i].end.is_none();
            assert(live == (!before[i as int].cancelled && before[i as int].end is None));
            if live {
                r.push(i);
            }
            self.entries[i].cancelled = true;
            proof {
                assert(self@ =~= old_view.update(
                    i as int,
                    EntryModel { cancelled: true, ..old_view[i as int] },
                ));
                assert forall|k: int| 0 <= k < r@.len() implies (#[trigger] r@[k]) < i + 1 by {}
                assert forall|j: int| 0 <= j < before.len() implies (r@.contains(j as usize) <==> j
                    < i + 1 && !(#[trigger] before[j]).cancelled && before[j].end is None) by {
                    if j == i as int && live {
                        assert(r@[r@.len() - 1] == i);
                    }
                    if r@.contains(j as usize) {
                        let k = choose|k: int| 0 <= k < r@.len() && r@[k] == j as usize;
                        assert(r@[k] < i + 1);
                        if j != i as int {
                            assert(old_r[k] == j as usize);
                        }
                    }
                    if old_r.contains(j as usize) {
                        let k = choose|k: int| 0 <= k < old_r.len() && old_r[k] == j as usize;
                        assert(r@[k] == j as usize);
                    }
                }
            }
            i += 1;
        }
        r
    }

    /// Records how task `index` ended when it was joined. Refuses, with
    /// `false` and no change, an index out of range or a task joined before.
    pub fn record_end(&mut self, index: usize, end: TaskEnd) -> (r: bool)
        ensures
            r == (index < old(self)@.len() && old(self)@[index as int].end is None),
            r ==> final(self)@ == old(self)@.update(
                index as int,
                EntryModel { end: Some(end), ..old(self)@[index as int] },
            ),
            !r ==> final(self)@ == old(self)@,
    {
        if index >= self.entries.len() || self.entries[index].end.is_some() {
            return false;
        }
        self.entries[index].end = Some(end);
        proof {
            assert(self@ =~= old(self)@.update(
                index as int,
                EntryModel { end: Some(end), ..old(self)@[index as int] },
            ));
        }
        true
    }

    /// Whether every task has been joined.
    pub fn all_joined(&self) -> (r: bool)
        ensures
            r == forall|i: int| 0 <= i < self@.len() ==> joined(#[trigger] self@[i]),
    {
        let mut i: usize = 0;
        while i < self.entries.len()
            invariant
                0 <= i <= self@.len(),
                forall|k: int| 0 <= k < i ==> joined(#[trigger] self@[k]),
            decreases self@.len() - i,
        {
            if self.entries[i].end.is_none() {
                assert(!joined(self@[i as int]));
                return false;
            }
            i += 1;
        }
        true
    }

    /// The run's result, once every task has been joined; before that, none.
    pub fn outcome(&self) -> (r: Option<AggregateResult>)
        ensures
            r is Some <==> forall|i: int| 0 <= i < self@.len() ==> joined(#[trigger] self@[i]),
            r matches Some(a) ==> a.failed_view() == failed_queues(self@),
    {
        if !self.all_joined() {
            return None;
        }
        let mut failed: Vec<String> = Vec::new();
        let mut i: usize = 0;
        while i < self.entries.len()
            invariant
                0 <= i <= self@.len(),
                failed@.map_values(|s: String| s@) == failed_queues(self@.take(i as int)),
            decreases self@.len() - i,
        {
            let clean = match self.entries[i].end {
                Some(TaskEnd::Stopped(StopReason::Cancelled)) => true,
                Some(_) => false,
                None => true,
            };
            if !clean {
                failed.push(self.entries[i].queue.clone());
            }
            proof {
                let t = self@.take(i + 1);
                assert(t.drop_last() =~= self@.take(i as int));
                assert(t.last() == self@[i as int]);
                assert(failed@.map_values(|s: String| s@) =~= failed_queues(t));
            }
            i += 1;
        }
        assert(self@.take(self@.len() as int) =~= self@);
        Some(AggregateResult { failed })
    }
}

/// A run's result reports every failed consumer, whatever the others did:
/// it is clean exactly when no joined consumer failed, and each failed
/// consumer's queue is named in it.
pub proof fn lemma_failures_all_reported(es: Seq<EntryModel>)
    ensures
        failed_queues(es).len() == 0 <==> forall|i: int| 0 <= i < es.len() ==> !failed(
            #[trigger] es[i],
        ),
        forall|i: int| 0 <= i < es.len() && failed(#[trigger] es[i]) ==> failed_queues(es).contains(
            es[i].queue,
        ),
    decreases es.len(),
{
    if es.len() > 0 {
        let init = es.drop_last();
        lemma_failures_all_reported(init);
        let f0 = failed_queues(init);
        let f = failed_queues(es);
        assert forall|i: int| 0 <= i < es.len() && failed(#[trigger] es[i]) implies f.contains(
            es[i].queue,
        ) by {
            if i < es.len() - 1 {
                assert(init[i] == es[i]);
                let k = choose|k: int| 0 <= k < f0.len() && f0[k] == es[i].queue;
                assert(f[k] == es[i].queue);
            } else {
                assert(f[f.len() - 1] == es[i].queue);
            }
        }
        if f.len() == 0 {
            assert forall|i: int| 0 <= i < es.len() implies !failed(#[trigger] es[i]) by {
                if i < es.len() - 1 {
                    assert(init[i] == es[i]);
                }
            }
        }
        if forall|i: int| 0 <= i < es.len() ==> !failed(#[trigger] es[i]) {
            assert forall|i: int| 0 <= i < init.len() implies !failed(#[trigger] init[i]) by {
                assert(init[i] == es[i]);
            }
            assert(!failed(es[es.len() - 1]));
        }
    }
}

} // verus!
