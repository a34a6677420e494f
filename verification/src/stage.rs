use vstd::prelude::*;
use vstd::multiset::Multiset;
use crate::status::Status;
use crate::style::{Label, label_rendered};
use crate::job::Job;
use crate::order::{opt_start_le, opt_text, opt_start_le_exec, lex_le, lemma_opt_start_le_total,
    lemma_opt_start_le_trans};

verus! {

broadcast use vstd::seq_lib::group_to_multiset_ensures;

/// A named group of jobs within one pipeline.
#[derive(Debug, Clone, PartialEq, Eq)]
pub struct Stage {
    pub name: Label,
    pub jobs: Vec<Job>,
}

/// Whether some job in the sequence satisfies `p` on its status.
pub open spec fn has_st(jobs: Seq<Job>, p: spec_fn(Status) -> bool) -> bool {
    exists|i: int| 0 <= i < jobs.len() && p((#[trigger] jobs[i]).status)
}

/// The status a stage displays, derived from its jobs by priority:
/// running dominates failed dominates success; a stage with no
/// recognized job status (or no jobs) is unknown.
pub open spec fn spec_find_status(jobs: Seq<Job>) -> Status {
    if has_st(jobs, |t: Status| t is Running) {
        Status::Running
    } else if has_st(jobs, |t: Status| t is Failed) {
        Status::Failed
    } else if has_st(jobs, |t: Status| t is Success) {
        Status::Success
    } else {
        Status::Unknown
    }
}

proof fn lemma_has_st_take_step(s: Seq<Job>, p: spec_fn(Status) -> bool, i: int)
    requires
        0 <= i < s.len(),
    ensures
        has_st(s.take(i + 1), p) == (has_st(s.take(i), p) || p(s[i].status)),
{
    let t0 = s.take(i);
    let t1 = s.take(i + 1);
    if p(s[i].status) {
        assert(t1[i] == s[i]);
        assert(has_st(t1, p));
    }
    if has_st(t0, p) {
        let k = choose|k: int| 0 <= k < t0.len() && p(t0[k].status);
        assert(t1[k] == t0[k]);
        assert(has_st(t1, p));
    }
    if has_st(t1, p) && !p(s[i].status) {
        let k = choose|k: int| 0 <= k < t1.len() && p(t1[k].status);
        assert(k < i);
        assert(t0[k] == t1[k]);
        assert(has_st(t0, p));
    }
}

/// The earliest start timestamp among a stage's started jobs, or `None`
/// when no job has started.
pub open spec fn min_start(jobs: Seq<Job>) -> Option<Seq<char>>
    decreases jobs.len(),
{
    if jobs.len() == 0 {
        Option::None
    } else {
        opt_min(min_start(jobs.drop_last()), opt_text(jobs.last().started_at))
    }
}

/// The earlier of two optional timestamps; absent counts as latest.
pub open spec fn opt_min(a: Option<Seq<char>>, b: Option<Seq<char>>) -> Option<Seq<char>> {
    if opt_start_le(a, b) {
        a
    } else {
        b
    }
}

impl Stage {
    /// Derives the stage's displayed status from its jobs.
    ///
    /// The result is always one of running, failed, success or unknown,
    /// and it is running whenever any job is running, whatever other
    /// statuses are present.
    pub fn find_status(&self) -> (r: Status)
        ensures
            r == spec_find_status(self.jobs@),
            r is Running || r is Failed || r is Success || r is Unknown,
            has_st(self.jobs@, |t: Status| t is Running) ==> r is Running,
    {
        let mut any_running = false;
        let mut any_failed = false;
        let mut any_success = false;
        let mut i: usize = 0;
        proof {
            assert(self.jobs@.take(0) =~= Seq::<Job>::empty());
        }
        while i < self.jobs.len()
            invariant
                i <= self.jobs.len(),
                any_running == has_st(self.jobs@.take(i as int), |t: Status| t is Running),
                any_failed == has_st(self.jobs@.take(i as int), |t: Status| t is Failed),
                any_success == has_st(self.jobs@.take(i as int), |t: Status| t is Success),
            decreases self.jobs.len() - i,
        {
            proof {
                lemma_has_st_take_step(self.jobs@, |t: Status| t is Running, i as int);
                lemma_has_st_take_step(self.jobs@, |t: Status| t is Failed, i as int);
                lemma_has_st_take_step(self.jobs@, |t: Status| t is Success, i as int);
            }
            let st = &self.jobs[i].status;
            any_running = any_running || st.is_running();
            any_failed = any_failed || st.is_failed();
            any_success = any_success || st.is_success();
            i = i + 1;
        }
        proof {
            assert(self.jobs@.take(self.jobs@.len() as int) =~= self.jobs@);
        }
        if any_running {
            Status::Running
        } else if any_failed {
            Status::Failed
        } else if any_success {
            Status::Success
        } else {
            Status::Unknown
        }
    }

    /// Renders the stage's tree line: its name styled by its derived
    /// status.
    pub fn line(&self) -> (r: String)
        ensures
            label_rendered(r@, self.name.0@, spec_find_status(self.jobs@)),
    {
        let st = self.find_status();
        self.name.to_string(&st)
    }

    /// The earliest start timestamp among this stage's started jobs.
    pub fn earliest_start(&self) -> (r: Option<String>)
        ensures
            opt_text(r) == min_start(self.jobs@),
    {
        let mut best: Option<String> = Option::None;
        let mut i: usize = 0;
        proof {
            assert(self.jobs@.take(0) =~= Seq::<Job>::empty());
        }
        while i < self.jobs.len()
            invariant
                i <= self.jobs.len(),
                opt_text(best) == min_start(self.jobs@.take(i as int)),
            decreases self.jobs.len() - i,
        {
            proof {
                assert(self.jobs@.take(i as int + 1).drop_last() =~= self.jobs@.take(i as int));
                assert(self.jobs@.take(i as int + 1).last() == self.jobs@[i as int]);
            }
            let cand = &self.jobs[i].started_at;
            if !opt_start_le_exec(&best, cand) {
                best = match cand {
                    Option::Some(s) => Option::Some(s.clone()),
                    Option::None => Option::None,
                };
            }
            i = i + 1;
        }
        proof {
            assert(self.jobs@.take(self.jobs@.len() as int) =~= self.jobs@);
        }
        best
    }
}

/// Stage order within a pipeline: by the earliest start among started
/// jobs; a stage with none sorts after every stage that has one.
pub open spec fn stage_le(a: Stage, b: Stage) -> bool {
    opt_start_le(min_start(a.jobs@), min_start(b.jobs@))
}

pub open spec fn stages_sorted(s: Seq<Stage>) -> bool {
    forall|i: int, j: int| 0 <= i < j < s.len() ==> #[trigger] stage_le(s[i], s[j])
}

fn stage_le_exec(a: &Stage, b: &Stage) -> (r: bool)
    ensures
        r == stage_le(*a, *b),
{
    let ka = a.earliest_start();
    let kb = b.earliest_start();
    opt_start_le_exec(&ka, &kb)
}

proof fn lemma_stages_sorted_insert(s: Seq<Stage>, x: Stage, pos: int)
    requires
        stages_sorted(s),
        0 <= pos <= s.len(),
        forall|j: int| 0 <= j < pos ==> stage_le(#[trigger] s[j], x),
        forall|j: int| pos <= j < s.len() ==> stage_le(x, #[trigger] s[j]),
    ensures
        stages_sorted(s.insert(pos, x)),
{
    s.insert_ensures(pos, x);
    let t = s.insert(pos, x);
    assert forall|i: int, j: int| 0 <= i < j < t.len() implies #[trigger] stage_le(t[i], t[j]) by {
        if i < pos && j < pos {
            assert(stage_le(s[i], s[j]));
        } else if i < pos && j == pos {
            assert(stage_le(s[i], x));
        } else if i < pos && j > pos {
            assert(stage_le(s[i], s[j - 1]));
        } else if i == pos {
            assert(stage_le(x, s[j - 1]));
        } else {
            assert(stage_le(s[i - 1], s[j - 1]));
        }
    }
}

/// Sorts a pipeline's stages by their earliest job start; stages with no
/// started job sort last.  The result is a permutation of the input.
pub fn sort_stages(stages: Vec<Stage>) -> (r: Vec<Stage>)
    ensures
        stages_sorted(r@),
        r@.to_multiset() == stages@.to_multiset(),
{
    let mut src = stages;
    let mut out: Vec<Stage> = Vec::new();
    let ghost orig = src@;
    proof {
        assert(out@.to_multiset().add(src@.to_multiset()) =~= orig.to_multiset());
    }
    while src.len() > 0
        invariant
            stages_sorted(out@),
            out@.to_multiset().add(src@.to_multiset()) == orig.to_multiset(),
        decreases src.len(),
    {
        let ghost src_before = src@;
        let ghost out_before = out@;
        let x = src.remove(0);
        proof {
            assert(src_before.to_multiset().count(x) >= 1) by {
                assert(src_before.contains(x)) by {
                    assert(src_before[0] == x);
                }
            }
        }
        let mut pos: usize = 0;
        while pos < out.len() && stage_le_exec(&out[pos], &x)
            invariant
                pos <= out.len(),
                stages_sorted(out@),
                forall|j: int| 0 <= j < pos ==> stage_le(#[trigger] out@[j], x),
            decreases out.len() - pos,
        {
            pos = pos + 1;
        }
        proof {
            if pos < out.len() {
                lemma_opt_start_le_total(min_start(out@[pos as int].jobs@), min_start(x.jobs@));
                assert(stage_le(x, out@[pos as int]));
            }
            assert forall|j: int| pos <= j < out.len() implies stage_le(x, #[trigger] out@[j]) by {
                assert(stage_le(x, out@[pos as int]));
                if j > pos {
                    assert(stage_le(out@[pos as int], out@[j]));
                    lemma_opt_start_le_trans(
                        min_start(x.jobs@),
                        min_start(out@[pos as int].jobs@),
                        min_start(out@[j].jobs@),
                    );
                }
            }
            lemma_stages_sorted_insert(out@, x, pos as int);
        }
        out.insert(pos, x);
        proof {
            assert(out@.to_multiset() == out_before.to_multiset().insert(x));
            assert(src@.to_multiset() == src_before.to_multiset().remove(x)) by {
                assert(src@ == src_before.remove(0));
            }
            assert(out@.to_multiset().add(src@.to_multiset()) =~= orig.to_multiset());
        }
    }
    proof {
        assert(src@.to_multiset() =~= Multiset::<Stage>::empty()) by {
            assert(src@ =~= Seq::<Stage>::empty());
        }
        assert(out@.to_multiset() =~= orig.to_multiset());
    }
    out
}

/// Membership test for a job in a stage of the given name.
pub open spec fn in_stage(name: Seq<char>) -> spec_fn(Job) -> bool {
    |j: Job| j.stage@ == name
}

/// Whether some stage in the sequence carries the given name.
pub open spec fn has_stage_named(stages: Seq<Stage>, name: Seq<char>) -> bool {
    exists|k: int| 0 <= k < stages.len() && (#[trigger] stages[k]).name.0@ == name
}

/// The grouping a job sequence implies: every stage holds exactly the
/// jobs that name it, in their incoming order; stage names are unique;
/// and every job's stage name is present.  No job is lost, duplicated,
/// or moved to a foreign stage.
pub open spec fn grouped_ok(jobs: Seq<Job>, stages: Seq<Stage>) -> bool {
    &&& forall|k: int|
        0 <= k < stages.len() ==> (#[trigger] stages[k]).jobs@ == jobs.filter(
            in_stage(stages[k].name.0@),
        )
    &&& forall|k1: int, k2: int|
        0 <= k1 < k2 < stages.len() ==> (#[trigger] stages[k1]).name.0@ != (
        #[trigger] stages[k2]).name.0@
    &&& forall|i: int|
        0 <= i < jobs.len() ==> has_stage_named(stages, (#[trigger] jobs[i]).stage@)
    &&& forall|k: int| 0 <= k < stages.len() ==> (#[trigger] stages[k]).jobs@.len() > 0
}

proof fn lemma_filter_push(s: Seq<Job>, p: spec_fn(Job) -> bool, x: Job)
    ensures
        s.push(x).filter(p) == (if p(x) {
            s.filter(p).push(x)
        } else {
            s.filter(p)
        }),
{
    reveal_with_fuel(Seq::filter, 2);
    assert(s.push(x).drop_last() =~= s);
    assert(s.push(x).last() == x);
}

proof fn lemma_filter_absent(s: Seq<Job>, name: Seq<char>)
    requires
        forall|i: int| 0 <= i < s.len() ==> (#[trigger] s[i]).stage@ != name,
    ensures
        s.filter(in_stage(name)) =~= Seq::<Job>::empty(),
    decreases s.len(),
{
    reveal_with_fuel(Seq::filter, 2);
    if s.len() > 0 {
        lemma_filter_absent(s.drop_last(), name);
        assert(!(in_stage(name)(s.last())));
    }
}

/// Groups a fetched job list into stages by each job's `stage` field,
/// keeping the incoming job order within every stage.
pub fn group_jobs(jobs: Vec<Job>) -> (r: Vec<Stage>)
    ensures
        grouped_ok(jobs@, r@),
{
    let ghost orig = jobs@;
    let mut src = jobs;
    let mut out: Vec<Stage> = Vec::new();
    proof {
        assert(orig.skip(0) =~= orig);
        assert(orig.take(0) =~= Seq::<Job>::empty());
    }
    while src.len() > 0
        invariant
            src@.len() <= orig.len(),
            src@ == orig.skip(orig.len() - src@.len()),
            grouped_ok(orig.take(orig.len() - src@.len()), out@),
        decreases src.len(),
    {
        let ghost p = orig.len() - src@.len();
        let ghost processed = orig.take(p as int);
        let ghost out_before = out@;
        let ghost src_before = src@;
        let j = src.remove(0);
        proof {
            src_before.remove_ensures(0);
            assert(j == src_before[0]);
            assert(orig.skip(p as int)[0] == orig[p as int]);
            assert(j == orig[p as int]);
            assert(src@ =~= orig.skip(p as int + 1)) by {
                assert forall|k2: int| 0 <= k2 < src@.len() implies src@[k2] == orig.skip(
                    p as int + 1,
                )[k2] by {
                    assert(src@[k2] == src_before[k2 + 1]);
                    assert(src_before[k2 + 1] == orig[p as int + 1 + k2]);
                }
            }
            assert(orig.take(p as int + 1) =~= processed.push(j));
        }
        let ghost processed1 = orig.take(p as int + 1);

        let mut idx: usize = out.len();
        let mut k: usize = 0;
        while k < out.len()
            invariant
                k <= out.len(),
                idx == out.len() || (idx < k && out@[idx as int].name.0@ == j.stage@),
                idx == out.len() ==> forall|k2: int|
                    0 <= k2 < k ==> (#[trigger] out@[k2]).name.0@ != j.stage@,
            decreases out.len() - k,
        {
            if idx == out.len() && out[k].name.0 == j.stage {
                idx = k;
            }
            k = k + 1;
        }

        if idx < out.len() {
            let mut st = out.remove(idx);
            let ghost st_before = st;
            st.jobs.push(j);
            let ghost st_new = st;
            out.insert(idx, st);
            proof {
                out_before.remove_ensures(idx as int);
                out_before.remove(idx as int).insert_ensures(idx as int, st_new);
                assert(out@ =~= out_before.update(idx as int, st_new));
                assert forall|k2: int| 0 <= k2 < out@.len() implies (#[trigger] out@[k2]).jobs@
                    == processed1.filter(in_stage(out@[k2].name.0@)) by {
                    lemma_filter_push(processed, in_stage(out@[k2].name.0@), j);
                    if k2 == idx {
                        assert(in_stage(out@[k2].name.0@)(j));
                    } else {
                        assert(out_before[k2].name.0@ != j.stage@);
                        assert(!(in_stage(out@[k2].name.0@)(j)));
                    }
                }
                assert forall|i: int| 0 <= i < processed1.len() implies has_stage_named(
                    out@,
                    (#[trigger] processed1[i]).stage@,
                ) by {
                    if i < p {
                        assert(has_stage_named(out_before, processed[i].stage@));
                        let kw = choose|kw: int|
                            0 <= kw < out_before.len() && (#[trigger] out_before[kw]).name.0@
                                == processed[i].stage@;
                        assert(out@[kw].name.0@ == out_before[kw].name.0@);
                    } else {
                        assert(out@[idx as int].name.0@ == j.stage@);
                    }
                }
            }
        } else {
            proof {
                assert forall|i: int| 0 <= i < processed.len() implies (
                #[trigger] processed[i]).stage@ != j.stage@ by {
                    assert(has_stage_named(out_before, processed[i].stage@));
                }
                lemma_filter_absent(processed, j.stage@);
                lemma_filter_push(processed, in_stage(j.stage@), j);
                assert(in_stage(j.stage@)(j));
            }
            let name_text = j.stage.clone();
            let mut members: Vec<Job> = Vec::new();
            members.push(j);
            let st = Stage { name: Label(name_text), jobs: members };
            out.push(st);
            proof {
                assert(out@ =~= out_before.push(st));
                assert(st.jobs@ =~= Seq::<Job>::empty().push(j));
                assert forall|k2: int| 0 <= k2 < out@.len() implies (#[trigger] out@[k2]).jobs@
                    == processed1.filter(in_stage(out@[k2].name.0@)) by {
                    lemma_filter_push(processed, in_stage(out@[k2].name.0@), j);
                    if k2 < out_before.len() {
                        assert(out@[k2] == out_before[k2]);
                        assert(out_before[k2].name.0@ != j.stage@);
                        assert(!(in_stage(out@[k2].name.0@)(j)));
                    } else {
                        assert(out@[k2] == st);
                    }
                }
                assert forall|i: int| 0 <= i < processed1.len() implies has_stage_named(
                    out@,
                    (#[trigger] processed1[i]).stage@,
                ) by {
                    if i < p {
                        assert(has_stage_named(out_before, processed[i].stage@));
                        let kw = choose|kw: int|
                            0 <= kw < out_before.len() && (#[trigger] out_before[kw]).name.0@
                                == processed[i].stage@;
                        assert(out@[kw].name.0@ == out_before[kw].name.0@);
                    } else {
                        assert(out@[out@.len() - 1].name.0@ == j.stage@);
                    }
                }
            }
        }
    }
    proof {
        assert(orig.take(orig.len() as int) =~= orig);
    }
    out
}

/// Sorted stages never place an earlier-starting stage after a strictly
/// later one, and a stage with no started jobs always comes after every
/// stage that has one.
pub proof fn lemma_stage_order_law(stages: Seq<Stage>, i: int, j: int)
    requires
        stages_sorted(stages),
        0 <= i < j < stages.len(),
    ensures
        min_start(stages[i].jobs@) is None ==> min_start(stages[j].jobs@) is None,
        min_start(stages[i].jobs@) is Some && min_start(stages[j].jobs@) is Some ==> lex_le(
            min_start(stages[i].jobs@)->Some_0,
            min_start(stages[j].jobs@)->Some_0,
        ),
{
    assert(stage_le(stages[i], stages[j]));
}

} // verus!
