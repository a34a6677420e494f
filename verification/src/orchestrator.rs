use vstd::prelude::*;
use vstd::pervasive::VecAdditionalExecFns;
use crate::pipeline::Pipeline;
use crate::error::GlpError;

verus! {

/// One entry of the fetched pipeline list: the fields the tool uses.
#[derive(Debug, Clone, PartialEq, Eq)]
pub struct PipelineRecord {
    pub id: String,
    pub git_ref: String,
    pub status: String,
}

/// The progress of one pipeline's fetch unit.
pub enum Slot {
    /// Not spawned yet.
    Pending,
    /// Spawned and holding one concurrency slot.
    InFlight,
    /// Finished, with the assembled pipeline or this unit's own error.
    Done(Result<Pipeline, GlpError>),
}

pub open spec fn count_in_flight(s: Seq<Slot>) -> int
    decreases s.len(),
{
    if s.len() == 0 {
        0
    } else {
        count_in_flight(s.drop_last()) + (if s.last() is InFlight {
            1int
        } else {
            0int
        })
    }
}

pub open spec fn count_done(s: Seq<Slot>) -> int
    decreases s.len(),
{
    if s.len() == 0 {
        0
    } else {
        count_done(s.drop_last()) + (if s.last() is Done {
            1int
        } else {
            0int
        })
    }
}

proof fn lemma_count_update(s: Seq<Slot>, i: int, v: Slot)
    requires
        0 <= i < s.len(),
    ensures
        count_in_flight(s.update(i, v)) == count_in_flight(s) - (if s[i] is InFlight {
            1int
        } else {
            0int
        }) + (if v is InFlight {
            1int
        } else {
            0int
        }),
        count_done(s.update(i, v)) == count_done(s) - (if s[i] is Done {
            1int
        } else {
            0int
        }) + (if v is Done {
            1int
        } else {
            0int
        }),
    decreases s.len(),
{
    if i == s.len() - 1 {
        assert(s.update(i, v).drop_last() =~= s.drop_last());
        assert(s.update(i, v).last() == v);
    } else {
        lemma_count_update(s.drop_last(), i, v);
        assert(s.update(i, v).drop_last() =~= s.drop_last().update(i, v));
        assert(s.update(i, v).last() == s.last());
    }
}

proof fn lemma_count_done_bound(s: Seq<Slot>)
    ensures
        0 <= count_done(s) <= s.len(),
        0 <= count_in_flight(s) <= s.len(),
    decreases s.len(),
{
    if s.len() > 0 {
        lemma_count_done_bound(s.drop_last());
    }
}

proof fn lemma_count_in_flight_pos(s: Seq<Slot>, i: int)
    requires
        0 <= i < s.len(),
        s[i] is InFlight,
    ensures
        count_in_flight(s) >= 1,
    decreases s.len(),
{
    if i == s.len() - 1 {
        lemma_count_done_bound(s.drop_last());
    } else {
        assert(s.drop_last()[i] == s[i]);
        lemma_count_in_flight_pos(s.drop_last(), i);
    }
}

proof fn lemma_count_done_full(s: Seq<Slot>)
    requires
        count_done(s) == s.len(),
    ensures
        forall|i: int| 0 <= i < s.len() ==> (#[trigger] s[i]) is Done,
    decreases s.len(),
{
    if s.len() > 0 {
        lemma_count_done_bound(s.drop_last());
        assert(s.last() is Done);
        lemma_count_done_full(s.drop_last());
        assert forall|i: int| 0 <= i < s.len() implies (#[trigger] s[i]) is Done by {
            if i < s.len() - 1 {
                assert(s.drop_last()[i] == s[i]);
            }
        }
    }
}

/// Drives the per-pipeline fetch units: spawns them in pipeline-list
/// order under a fixed concurrency cap, buffers completions however they
/// arrive, and hands the results back in the original order.
///
/// The unverified shell around the library performs the actual requests;
/// this state machine makes every spawning and collection decision, so
/// the cap and the output order are guaranteed wherever the shell obeys
/// the method contracts.
pub struct Orchestrator {
    pub records: Vec<PipelineRecord>,
    pub slots: Vec<Slot>,
    pub next: usize,
    pub in_flight: usize,
    pub done: usize,
    pub max_concurrency: usize,
}

impl Orchestrator {
    /// The state invariant: counters agree with the slots, spawning
    /// proceeds left to right, the cap holds, and every finished
    /// pipeline belongs to its own record.
    pub open spec fn wf(self) -> bool {
        &&& self.slots@.len() == self.records@.len()
        &&& self.next <= self.slots@.len()
        &&& forall|i: int| self.next <= i < self.slots@.len() ==> (#[trigger] self.slots@[i]) is Pending
        &&& forall|i: int| 0 <= i < self.next ==> !((#[trigger] self.slots@[i]) is Pending)
        &&& self.in_flight == count_in_flight(self.slots@)
        &&& self.done == count_done(self.slots@)
        &&& self.in_flight + self.done == self.next
        &&& self.in_flight <= self.max_concurrency
        &&& 1 <= self.max_concurrency
        &&& forall|i: int|
            0 <= i < self.slots@.len() ==> ((#[trigger] self.slots@[i]) matches Slot::Done(
                res,
            ) ==> (res matches Ok(p) ==> p.id.0@ == self.records@[i].id@ && p.git_ref@
                == self.records@[i].git_ref@ && p.status.text() == self.records@[i].status@))
    }

    /// A fresh orchestrator over one fetched pipeline list.
    pub fn new(records: Vec<PipelineRecord>, max_concurrency: usize) -> (r: Orchestrator)
        requires
            max_concurrency >= 1,
        ensures
            r.wf(),
            r.records == records,
            r.max_concurrency == max_concurrency,
            r.next == 0,
            r.in_flight == 0,
            r.done == 0,
    {
        let n = records.len();
        let mut slots: Vec<Slot> = Vec::new();
        let mut i: usize = 0;
        while i < n
            invariant
                i <= n,
                slots@.len() == i,
                forall|k: int| 0 <= k < i ==> (#[trigger] slots@[k]) is Pending,
                count_in_flight(slots@) == 0,
                count_done(slots@) == 0,
            decreases n - i,
        {
            let ghost before = slots@;
            slots.push(Slot::Pending);
            proof {
                assert(slots@.drop_last() =~= before);
                assert(slots@.last() is Pending);
            }
            i = i + 1;
        }
        Orchestrator { records, slots, next: 0, in_flight: 0, done: 0, max_concurrency }
    }

    /// Asks for the next unit to spawn.  Hands out the next pipeline
    /// index exactly when one is left and a concurrency slot is free;
    /// the count of units in flight never passes the cap.
    pub fn start_next(&mut self) -> (r: Option<usize>)
        requires
            old(self).wf(),
        ensures
            final(self).wf(),
            final(self).records == old(self).records,
            final(self).max_concurrency == old(self).max_concurrency,
            final(self).in_flight <= final(self).max_concurrency,
            r matches Some(i) ==> i == old(self).next && old(self).in_flight < old(
                self,
            ).max_concurrency && i < old(self).records@.len() && final(self).next == old(self).next
                + 1 && final(self).in_flight == old(self).in_flight + 1 && final(self).done == old(
                self,
            ).done && final(self).slots@ == old(self).slots@.update(i as int, Slot::InFlight),
            r is None ==> *final(self) == *old(self) && (old(self).in_flight == old(
                self,
            ).max_concurrency || old(self).next == old(self).records@.len()),
    {
        if self.next < self.records.len() && self.in_flight < self.max_concurrency {
            let i = self.next;
            proof {
                lemma_count_update(self.slots@, i as int, Slot::InFlight);
            }
            self.slots.set(i, Slot::InFlight);
            self.next = self.next + 1;
            self.in_flight = self.in_flight + 1;
            Option::Some(i)
        } else {
            Option::None
        }
    }

    /// Records the completion of unit `i`, freeing its concurrency slot.
    /// A successful result must carry the pipeline assembled for record
    /// `i` itself; a failed unit keeps its own error without disturbing
    /// its siblings.
    pub fn complete(&mut self, i: usize, result: Result<Pipeline, GlpError>)
        requires
            old(self).wf(),
            i < old(self).slots@.len(),
            old(self).slots@[i as int] is InFlight,
            result matches Ok(p) ==> p.id.0@ == old(self).records@[i as int].id@ && p.git_ref@
                == old(self).records@[i as int].git_ref@ && p.status.text() == old(
                self,
            ).records@[i as int].status@,
        ensures
            final(self).wf(),
            final(self).records == old(self).records,
            final(self).max_concurrency == old(self).max_concurrency,
            final(self).next == old(self).next,
            final(self).in_flight == old(self).in_flight - 1,
            final(self).done == old(self).done + 1,
            final(self).slots@ == old(self).slots@.update(i as int, Slot::Done(result)),
    {
        proof {
            lemma_count_update(self.slots@, i as int, Slot::Done(result));
            lemma_count_in_flight_pos(self.slots@, i as int);
            lemma_count_done_bound(self.slots@);
        }
        self.slots.set(i, Slot::Done(result));
        self.in_flight = self.in_flight - 1;
        self.done = self.done + 1;
    }

    /// Whether every pipeline's unit has completed.
    pub fn all_done(&self) -> (r: bool)
        requires
            self.wf(),
        ensures
            r == (self.done == self.records@.len()),
            r ==> forall|i: int| 0 <= i < self.slots@.len() ==> (#[trigger] self.slots@[i]) is Done,
    {
        proof {
            if self.done == self.records@.len() {
                lemma_count_done_full(self.slots@);
            }
        }
        self.done == self.records.len()
    }

    /// Hands the collected results back, one per record, in the original
    /// pipeline-list order — not in completion order.
    pub fn into_results(self) -> (r: Vec<Result<Pipeline, GlpError>>)
        requires
            self.wf(),
            self.done == self.records@.len(),
        ensures
            r@.len() == self.records@.len(),
            forall|i: int|
                0 <= i < r@.len() ==> Slot::Done(#[trigger] r@[i]) == self.slots@[i],
            forall|i: int|
                0 <= i < r@.len() ==> ((#[trigger] r@[i]) matches Ok(p) ==> p.id.0@
                    == self.records@[i].id@ && p.git_ref@ == self.records@[i].git_ref@
                    && p.status.text() == self.records@[i].status@),
    {
        proof {
            lemma_count_done_full(self.slots@);
        }
        let ghost slots_view = self.slots@;
        let mut src = self.slots;
        let mut out: Vec<Result<Pipeline, GlpError>> = Vec::new();
        while src.len() > 0
            invariant
                src@.len() <= slots_view.len(),
                src@ == slots_view.skip(slots_view.len() - src@.len()),
                out@.len() == slots_view.len() - src@.len(),
                forall|i: int| 0 <= i < slots_view.len() ==> (#[trigger] slots_view[i]) is Done,
                forall|i: int|
                    0 <= i < out@.len() ==> Slot::Done(#[trigger] out@[i]) == slots_view[i],
            decreases src.len(),
        {
            let ghost p = slots_view.len() - src@.len();
            let ghost src_before = src@;
            let slot = src.remove(0);
            proof {
                src_before.remove_ensures(0);
                assert(slot == src_before[0]);
                assert(slots_view.skip(p as int)[0] == slots_view[p as int]);
                assert(src@ =~= slots_view.skip(p as int + 1)) by {
                    assert forall|k2: int| 0 <= k2 < src@.len() implies src@[k2]
                        == slots_view.skip(p as int + 1)[k2] by {
                        assert(src@[k2] == src_before[k2 + 1]);
                        assert(src_before[k2 + 1] == slots_view[p as int + 1 + k2]);
                    }
                }
                assert(slots_view[p as int] is Done);
            }
            match slot {
                Slot::Done(res) => {
                    out.push(res);
                },
                Slot::Pending => {
                    proof {
                        assert(false);
                    }
                },
                Slot::InFlight => {
                    proof {
                        assert(false);
                    }
                },
            }
        }
        out
    }
}

} // verus!
