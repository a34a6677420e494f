use vstd::prelude::*;
use vstd::string::StringExecFns;
use crate::status::Status;
use crate::style::{Label, label_rendered};
use crate::job::{Job, human_secs, format_secs, jobs_sorted, sort_jobs};
use crate::stage::{Stage, stages_sorted, sort_stages, group_jobs, grouped_ok, in_stage,
    has_stage_named};
use crate::error::GlpError;

verus! {

broadcast use vstd::seq_lib::group_to_multiset_ensures;

/// Extended pipeline details, fetched only on demand.
#[derive(Debug, Clone, PartialEq, Eq)]
pub struct Details {
    /// The finishing timestamp as the API sent it, or `None` while the
    /// pipeline has not finished.
    pub finished_at: Option<String>,
}

/// One CI pipeline: identity, status, its stages in display order, and
/// optionally extended details.
#[derive(Debug, Clone, PartialEq, Eq)]
pub struct Pipeline {
    pub id: Label,
    pub git_ref: String,
    pub status: Status,
    pub stages: Vec<Stage>,
    pub show_finished: bool,
    pub details: Option<Details>,
}

/// A job's contribution to the pipeline duration, in milliseconds; a job
/// without a duration contributes zero.
pub open spec fn job_ms(j: Job) -> int {
    match j.duration_ms {
        Option::Some(ms) => ms as int,
        Option::None => 0,
    }
}

pub open spec fn sum_jobs_ms(jobs: Seq<Job>) -> int
    decreases jobs.len(),
{
    if jobs.len() == 0 {
        0
    } else {
        sum_jobs_ms(jobs.drop_last()) + job_ms(jobs.last())
    }
}

pub open spec fn sum_stages_ms(stages: Seq<Stage>) -> int
    decreases stages.len(),
{
    if stages.len() == 0 {
        0
    } else {
        sum_stages_ms(stages.drop_last()) + sum_jobs_ms(stages.last().jobs@)
    }
}

proof fn lemma_sum_jobs_nonneg(s: Seq<Job>)
    ensures
        sum_jobs_ms(s) >= 0,
    decreases s.len(),
{
    if s.len() > 0 {
        lemma_sum_jobs_nonneg(s.drop_last());
    }
}

proof fn lemma_sum_jobs_prefix(s: Seq<Job>, i: int)
    requires
        0 <= i <= s.len(),
    ensures
        sum_jobs_ms(s.take(i)) <= sum_jobs_ms(s),
    decreases s.len() - i,
{
    if i == s.len() {
        assert(s.take(i) =~= s);
    } else {
        assert(s.take(i + 1).drop_last() =~= s.take(i));
        assert(s.take(i + 1).last() == s[i]);
        lemma_sum_jobs_prefix(s, i + 1);
    }
}

proof fn lemma_sum_stages_nonneg(s: Seq<Stage>)
    ensures
        sum_stages_ms(s) >= 0,
    decreases s.len(),
{
    if s.len() > 0 {
        lemma_sum_stages_nonneg(s.drop_last());
        lemma_sum_jobs_nonneg(s.last().jobs@);
    }
}

proof fn lemma_sum_stages_prefix(s: Seq<Stage>, i: int)
    requires
        0 <= i <= s.len(),
    ensures
        sum_stages_ms(s.take(i)) <= sum_stages_ms(s),
    decreases s.len() - i,
{
    if i == s.len() {
        assert(s.take(i) =~= s);
    } else {
        assert(s.take(i + 1).drop_last() =~= s.take(i));
        assert(s.take(i + 1).last() == s[i]);
        lemma_sum_jobs_nonneg(s[i].jobs@);
        lemma_sum_stages_prefix(s, i + 1);
    }
}

/// A pipeline counts as finished exactly when its own status is success
/// or failed.
pub open spec fn spec_is_finished(st: Status) -> bool {
    st is Success || st is Failed
}

/// The duration suffix text: the sum of every job duration in the
/// pipeline, floored to whole seconds and humanized, in ` [...]`.
pub open spec fn spec_duration_suffix(stages: Seq<Stage>) -> Seq<char> {
    " ["@ + human_secs((sum_stages_ms(stages) / 1000) as u64) + "]"@
}

/// What `timeago` renders a whole-second distance as.
pub uninterp spec fn ago_text(secs: u64) -> Seq<char>;

/// Relies on `timeago::Formatter::new` and `Formatter::convert`: the
/// default English formatter's phrase depends on the duration alone.
#[verifier::external_body]
fn format_ago(secs: u64) -> (r: String)
    ensures
        r@ == ago_text(secs),
{
    timeago::Formatter::new().convert(std::time::Duration::from_secs(secs))
}

/// Relies on `chrono::DateTime::parse_from_rfc3339` and
/// `DateTime::timestamp`: both the parse outcome and the epoch second
/// depend on the text alone.
#[verifier::external_body]
fn parse_rfc3339_secs(s: &str) -> (r: Option<i64>)
    ensures
        r == rfc3339_unix(s@),
{
    match chrono::DateTime::parse_from_rfc3339(s) {
        Ok(d) => Option::Some(d.timestamp()),
        Err(_) => Option::None,
    }
}

/// What `chrono` parses an RFC 3339 text to, as seconds since the epoch;
/// `None` for a text it rejects.
pub uninterp spec fn rfc3339_unix(s: Seq<char>) -> Option<i64>;

/// The relative-time phrase for a pipeline finished at `f` seen at
/// `now`: a timeago phrase for past instants, the placeholder for a
/// finishing time still ahead of `now`.
pub open spec fn ago_or_future(f: i64, now: i64) -> Seq<char> {
    if f <= now {
        ago_text((now - f) as u64)
    } else {
        "???"@
    }
}

/// The finished-ago suffix a pipeline shows, or `None` when a present
/// `finished_at` is not valid RFC 3339.  An absent `details` blob or a
/// null `finished_at` yields an empty suffix, not an error.
pub open spec fn spec_fin_opt(p: Pipeline, now: i64) -> Option<Seq<char>> {
    match p.details {
        Option::None => Option::Some(Seq::empty()),
        Option::Some(d) => match d.finished_at {
            Option::None => Option::Some(Seq::empty()),
            Option::Some(ts) => match rfc3339_unix(ts@) {
                Option::None => Option::None,
                Option::Some(f) => Option::Some(" ["@ + ago_or_future(f, now) + "]"@),
            },
        },
    }
}

/// The duration part of the root line: shown only for finished pipelines.
pub open spec fn spec_dur_part(p: Pipeline) -> Seq<char> {
    if spec_is_finished(p.status) {
        spec_duration_suffix(p.stages@)
    } else {
        Seq::empty()
    }
}

/// The finished-ago part of the root line: shown only on request.
pub open spec fn spec_fin_part(p: Pipeline, now: i64) -> Seq<char> {
    if p.show_finished {
        spec_fin_opt(p, now)->Some_0
    } else {
        Seq::empty()
    }
}

/// The root line of a pipeline's tree: its styled id, its git reference
/// in parentheses, then the duration and finished-ago suffixes.
pub open spec fn root_line_ok(r: Seq<char>, p: Pipeline, now: i64) -> bool {
    exists|styled: Seq<char>|
        #[trigger] label_rendered(styled, p.id.0@, p.status) && r == styled + " ("@ + p.git_ref@
            + ")"@ + spec_dur_part(p) + spec_fin_part(p, now)
}

/// A pipeline that is still running is not finished, so its root line
/// never shows a duration suffix.
pub proof fn lemma_running_shows_no_duration(p: Pipeline)
    requires
        p.status is Running,
    ensures
        !spec_is_finished(p.status),
        spec_dur_part(p) == Seq::<char>::empty(),
{
}

impl Pipeline {
    /// Whether the pipeline is finished (its status is success or
    /// failed); only then is the duration suffix shown.
    pub fn is_finished(&self) -> (r: bool)
        ensures
            r == spec_is_finished(self.status),
    {
        self.status.is_success() || self.status.is_failed()
    }

    /// Sums every job duration in the pipeline, in milliseconds; jobs
    /// without one contribute zero.
    pub fn total_ms(&self) -> (r: u128)
        requires
            sum_stages_ms(self.stages@) <= u128::MAX,
        ensures
            r as int == sum_stages_ms(self.stages@),
    {
        let mut acc: u128 = 0;
        let mut si: usize = 0;
        proof {
            assert(self.stages@.take(0) =~= Seq::<Stage>::empty());
        }
        while si < self.stages.len()
            invariant
                si <= self.stages.len(),
                sum_stages_ms(self.stages@) <= u128::MAX,
                acc as int == sum_stages_ms(self.stages@.take(si as int)),
            decreases self.stages.len() - si,
        {
            let stage = &self.stages[si];
            let mut ji: usize = 0;
            proof {
                assert(stage.jobs@.take(0) =~= Seq::<Job>::empty());
            }
            while ji < stage.jobs.len()
                invariant
                    ji <= stage.jobs.len(),
                    si < self.stages.len(),
                    stage == &self.stages@[si as int],
                    sum_stages_ms(self.stages@) <= u128::MAX,
                    acc as int == sum_stages_ms(self.stages@.take(si as int)) + sum_jobs_ms(
                        stage.jobs@.take(ji as int),
                    ),
                decreases stage.jobs.len() - ji,
            {
                proof {
                    assert(stage.jobs@.take(ji as int + 1).drop_last() =~= stage.jobs@.take(
                        ji as int,
                    ));
                    assert(stage.jobs@.take(ji as int + 1).last() == stage.jobs@[ji as int]);
                    lemma_sum_jobs_prefix(stage.jobs@, ji as int + 1);
                    assert(self.stages@.take(si as int + 1).drop_last() =~= self.stages@.take(
                        si as int,
                    ));
                    assert(self.stages@.take(si as int + 1).last() == self.stages@[si as int]);
                    lemma_sum_stages_prefix(self.stages@, si as int + 1);
                    lemma_sum_stages_nonneg(self.stages@.take(si as int));
                    lemma_sum_jobs_nonneg(stage.jobs@.take(ji as int));
                }
                let ms: u64 = match stage.jobs[ji].duration_ms {
                    Option::Some(m) => m,
                    Option::None => 0,
                };
                acc = acc + ms as u128;
                ji = ji + 1;
            }
            proof {
                assert(stage.jobs@.take(stage.jobs@.len() as int) =~= stage.jobs@);
                assert(self.stages@.take(si as int + 1).drop_last() =~= self.stages@.take(
                    si as int,
                ));
                assert(self.stages@.take(si as int + 1).last() == self.stages@[si as int]);
            }
            si = si + 1;
        }
        proof {
            assert(self.stages@.take(self.stages@.len() as int) =~= self.stages@);
        }
        acc
    }

    /// Renders the duration suffix, e.g. ` [7m 2s]`: the floor-to-seconds
    /// sum of all job durations, humanized.
    pub fn duration_suffix(&self) -> (r: String)
        requires
            sum_stages_ms(self.stages@) / 1000 <= u64::MAX,
        ensures
            r@ == spec_duration_suffix(self.stages@),
    {
        proof {
            lemma_sum_stages_nonneg(self.stages@);
            assert(sum_stages_ms(self.stages@) <= u128::MAX) by {
                assert(sum_stages_ms(self.stages@) == 1000 * (sum_stages_ms(self.stages@) / 1000)
                    + sum_stages_ms(self.stages@) % 1000);
            }
        }
        let total = self.total_ms();
        let secs128: u128 = total / 1000;
        let secs: u64 = secs128 as u64;
        let t = format_secs(secs);
        let mut r = String::from_str(" [");
        r.append(t.as_str());
        r.append("]");
        proof {
            assert(r@ =~= spec_duration_suffix(self.stages@));
        }
        r
    }

    /// Renders the finished-ago suffix, e.g. ` [2 days ago]`, from the
    /// fetched details and the current time; empty when details are
    /// absent or `finished_at` is null, an error when `finished_at` is
    /// present but not valid RFC 3339.
    pub fn finished_suffix(&self, now_unix: i64) -> (r: Result<String, GlpError>)
        ensures
            spec_fin_opt(*self, now_unix) is Some ==> r is Ok && r->Ok_0@ == spec_fin_opt(
                *self,
                now_unix,
            )->Some_0,
            spec_fin_opt(*self, now_unix) is None ==> r is Err && r->Err_0 is TimestampParse,
    {
        match &self.details {
            Option::None => Result::Ok(String::new()),
            Option::Some(d) => match &d.finished_at {
                Option::None => Result::Ok(String::new()),
                Option::Some(ts) => {
                    match parse_rfc3339_secs(ts.as_str()) {
                        Option::None => Result::Err(GlpError::TimestampParse(ts.clone())),
                        Option::Some(f) => {
                            let phrase: String = if f <= now_unix {
                                let diff: i128 = now_unix as i128 - f as i128;
                                format_ago(diff as u64)
                            } else {
                                String::from_str("???")
                            };
                            let mut r = String::from_str(" [");
                            r.append(phrase.as_str());
                            r.append("]");
                            proof {
                                assert(r@ =~= " ["@ + ago_or_future(f, now_unix) + "]"@);
                            }
                            Result::Ok(r)
                        },
                    }
                },
            },
        }
    }

    /// Renders the pipeline's root line: styled id, git reference, and
    /// the two suffixes.
    pub fn root_line(&self, now_unix: i64) -> (r: Result<String, GlpError>)
        requires
            spec_is_finished(self.status) ==> sum_stages_ms(self.stages@) / 1000 <= u64::MAX,
        ensures
            self.show_finished && spec_fin_opt(*self, now_unix) is None ==> r is Err
                && r->Err_0 is TimestampParse,
            !(self.show_finished && spec_fin_opt(*self, now_unix) is None) ==> r is Ok
                && root_line_ok(r->Ok_0@, *self, now_unix),
    {
        let styled = self.id.to_string(&self.status);
        let ghost styled_view = styled@;
        let mut line = styled;
        line.append(" (");
        line.append(self.git_ref.as_str());
        line.append(")");
        if self.is_finished() {
            let d = self.duration_suffix();
            line.append(d.as_str());
        }
        if self.show_finished {
            match self.finished_suffix(now_unix) {
                Result::Ok(s) => {
                    line.append(s.as_str());
                },
                Result::Err(e) => {
                    return Result::Err(e);
                },
            }
        }
        proof {
            assert(line@ =~= styled_view + " ("@ + self.git_ref@ + ")"@ + spec_dur_part(*self)
                + spec_fin_part(*self, now_unix));
            assert(label_rendered(styled_view, self.id.0@, self.status));
        }
        Result::Ok(line)
    }
}

/// What `assemble` guarantees of the stages it builds from a fetched job
/// list: stages are sorted by earliest start, every stage's jobs are
/// sorted by start time and are exactly the jobs naming that stage (as a
/// multiset — no job lost, duplicated, or moved), stage names are
/// unique, and every job's stage name is present.
pub open spec fn assembled_ok(jobs: Seq<Job>, stages: Seq<Stage>) -> bool {
    &&& stages_sorted(stages)
    &&& forall|k: int| 0 <= k < stages.len() ==> jobs_sorted((#[trigger] stages[k]).jobs@)
    &&& forall|k: int|
        0 <= k < stages.len() ==> (#[trigger] stages[k]).jobs@.to_multiset() == jobs.filter(
            in_stage(stages[k].name.0@),
        ).to_multiset()
    &&& forall|k1: int, k2: int|
        0 <= k1 < k2 < stages.len() ==> (#[trigger] stages[k1]).name.0@ != (
        #[trigger] stages[k2]).name.0@
    &&& forall|i: int|
        0 <= i < jobs.len() ==> has_stage_named(stages, (#[trigger] jobs[i]).stage@)
    &&& forall|k: int| 0 <= k < stages.len() ==> (#[trigger] stages[k]).jobs@.len() > 0
}

/// Builds a pipeline from one pipeline-list entry and its fetched jobs:
/// groups the jobs into stages, sorts each stage's jobs by start time,
/// and sorts the stages by their earliest start.
pub fn assemble(
    id: String,
    git_ref: String,
    status: String,
    jobs: Vec<Job>,
    show_finished: bool,
    details: Option<Details>,
) -> (r: Pipeline)
    ensures
        r.id.0@ == id@,
        r.git_ref == git_ref,
        r.status.wf(),
        r.status.text() == status@,
        r.show_finished == show_finished,
        r.details == details,
        assembled_ok(jobs@, r.stages@),
{
    let ghost jobs_view = jobs@;
    let grouped = group_jobs(jobs);
    let ghost grouped_view = grouped@;

    // Sort each stage's jobs, keeping the stages in place.
    let mut src = grouped;
    let mut mid: Vec<Stage> = Vec::new();
    proof {
        assert(src@ =~= grouped_view.skip(0));
    }
    while src.len() > 0
        invariant
            src@.len() <= grouped_view.len(),
            src@ == grouped_view.skip(grouped_view.len() - src@.len()),
            mid@.len() == grouped_view.len() - src@.len(),
            forall|k: int|
                0 <= k < mid@.len() ==> (#[trigger] mid@[k]).name == grouped_view[k].name,
            forall|k: int| 0 <= k < mid@.len() ==> jobs_sorted((#[trigger] mid@[k]).jobs@),
            forall|k: int|
                0 <= k < mid@.len() ==> (#[trigger] mid@[k]).jobs@.to_multiset()
                    == grouped_view[k].jobs@.to_multiset(),
            forall|k: int|
                0 <= k < mid@.len() ==> (#[trigger] mid@[k]).jobs@.len()
                    == grouped_view[k].jobs@.len(),
        decreases src.len(),
    {
        let ghost p = grouped_view.len() - src@.len();
        let ghost src_before = src@;
        let st = src.remove(0);
        proof {
            src_before.remove_ensures(0);
            assert(st == src_before[0]);
            assert(grouped_view.skip(p as int)[0] == grouped_view[p as int]);
            assert(src@ =~= grouped_view.skip(p as int + 1)) by {
                assert forall|k2: int| 0 <= k2 < src@.len() implies src@[k2] == grouped_view.skip(
                    p as int + 1,
                )[k2] by {
                    assert(src@[k2] == src_before[k2 + 1]);
                    assert(src_before[k2 + 1] == grouped_view[p as int + 1 + k2]);
                }
            }
        }
        let sorted = sort_jobs(st.jobs);
        proof {
            vstd::seq_lib::to_multiset_len(sorted@);
            vstd::seq_lib::to_multiset_len(st.jobs@);
        }
        mid.push(Stage { name: st.name, jobs: sorted });
    }

    let stages = sort_stages(mid);
    let ghost mid_view = mid@;
    let ghost stages_view = stages@;
    proof {
        // The per-stage properties carry over from the grouping.
        assert(grouped_ok(jobs_view, grouped_view));
        assert forall|k: int| 0 <= k < mid_view.len() implies (#[trigger] mid_view[k]).jobs@
            .to_multiset() == jobs_view.filter(in_stage(mid_view[k].name.0@)).to_multiset() by {
            assert(grouped_view[k].jobs@ == jobs_view.filter(in_stage(grouped_view[k].name.0@)));
        }
        // Name uniqueness makes the stage values pairwise distinct.
        assert(mid_view.no_duplicates()) by {
            assert forall|k1: int, k2: int|
                0 <= k1 < mid_view.len() && 0 <= k2 < mid_view.len() && k1 != k2 implies mid_view[k1]
                != mid_view[k2] by {
                if k1 < k2 {
                    assert(grouped_view[k1].name.0@ != grouped_view[k2].name.0@);
                } else {
                    assert(grouped_view[k2].name.0@ != grouped_view[k1].name.0@);
                }
            }
        }
        mid_view.lemma_multiset_has_no_duplicates();
        stages_view.lemma_multiset_has_no_duplicates_conv();
        // Every sorted stage is one of the grouped stages.
        assert forall|k: int| 0 <= k < stages_view.len() implies exists|k2: int|
            0 <= k2 < mid_view.len() && mid_view[k2] == #[trigger] stages_view[k] by {
            assert(stages_view.contains(stages_view[k]));
            assert(stages_view.to_multiset().count(stages_view[k]) > 0);
            assert(mid_view.to_multiset().count(stages_view[k]) > 0);
            assert(mid_view.contains(stages_view[k]));
        }
        // ... so the per-stage properties hold of the sorted stages too.
        assert forall|k: int| 0 <= k < stages_view.len() implies jobs_sorted(
            (#[trigger] stages_view[k]).jobs@,
        ) && stages_view[k].jobs@.to_multiset() == jobs_view.filter(
            in_stage(stages_view[k].name.0@),
        ).to_multiset() && stages_view[k].jobs@.len() > 0 by {
            let k2 = choose|k2: int| 0 <= k2 < mid_view.len() && mid_view[k2] == stages_view[k];
            assert(jobs_sorted(mid_view[k2].jobs@));
            assert(grouped_view[k2].jobs@.len() > 0);
        }
        // Names stay unique across the permutation.
        assert forall|k1: int, k2: int| 0 <= k1 < k2 < stages_view.len() implies (
        #[trigger] stages_view[k1]).name.0@ != (#[trigger] stages_view[k2]).name.0@ by {
            assert(stages_view[k1] != stages_view[k2]);
            let j1 = choose|j1: int| 0 <= j1 < mid_view.len() && mid_view[j1] == stages_view[k1];
            let j2 = choose|j2: int| 0 <= j2 < mid_view.len() && mid_view[j2] == stages_view[k2];
            assert(j1 != j2);
            if j1 < j2 {
                assert(mid_view[j1].name.0@ != mid_view[j2].name.0@);
            } else {
                assert(mid_view[j2].name.0@ != mid_view[j1].name.0@);
            }
        }
        // Every job's stage name is still present.
        assert forall|i: int| 0 <= i < jobs_view.len() implies has_stage_named(
            stages_view,
            (#[trigger] jobs_view[i]).stage@,
        ) by {
            assert(has_stage_named(grouped_view, jobs_view[i].stage@));
            let kg = choose|kg: int|
                0 <= kg < grouped_view.len() && (#[trigger] grouped_view[kg]).name.0@
                    == jobs_view[i].stage@;
            assert(mid_view[kg].name == grouped_view[kg].name);
            assert(mid_view.contains(mid_view[kg]));
            assert(mid_view.to_multiset().count(mid_view[kg]) > 0);
            assert(stages_view.to_multiset().count(mid_view[kg]) > 0);
            assert(stages_view.contains(mid_view[kg]));
            let ks = choose|ks: int|
                0 <= ks < stages_view.len() && stages_view[ks] == mid_view[kg];
            assert(stages_view[ks].name.0@ == jobs_view[i].stage@);
        }
    }

    Pipeline {
        id: Label(id),
        git_ref,
        status: Status::from_text(status),
        stages,
        show_finished,
        details,
    }
}

} // verus!
