use vstd::prelude::*;
use vstd::string::StringExecFns;
use crate::style::label_rendered;
use crate::job::job_line_ok;
use crate::stage::{Stage, spec_find_status};
use crate::pipeline::{Pipeline, root_line_ok, spec_is_finished, spec_fin_opt, sum_stages_ms};
use crate::error::GlpError;

verus! {

/// The computed line texts of one stage: its styled header and one line
/// per job, before any tree glyphs are attached.
pub struct StageLines {
    pub header: String,
    pub jobs: Vec<String>,
}

/// The computed line texts of one pipeline's tree.
pub struct PipelineLines {
    pub root: String,
    pub stages: Vec<StageLines>,
}

/// What the computed lines must say about the pipeline they came from.
pub open spec fn stage_lines_ok(l: StageLines, st: Stage) -> bool {
    &&& label_rendered(l.header@, st.name.0@, spec_find_status(st.jobs@))
    &&& l.jobs@.len() == st.jobs@.len()
    &&& forall|j: int| 0 <= j < l.jobs@.len() ==> job_line_ok((#[trigger] l.jobs@[j])@, st.jobs@[j])
}

pub open spec fn lines_ok(l: PipelineLines, p: Pipeline, now: i64) -> bool {
    &&& root_line_ok(l.root@, p, now)
    &&& l.stages@.len() == p.stages@.len()
    &&& forall|k: int|
        0 <= k < l.stages@.len() ==> stage_lines_ok(#[trigger] l.stages@[k], p.stages@[k])
}

/// The glyphs put before a stage line.
pub open spec fn stage_prefix(last: bool) -> Seq<char> {
    if last {
        "└─ "@
    } else {
        "├─ "@
    }
}

/// The glyphs put before a job line: a continuation column for its
/// stage, then its own branch.
pub open spec fn job_prefix(stage_last: bool, job_last: bool) -> Seq<char> {
    (if stage_last {
        "   "@
    } else {
        "│  "@
    }) + (if job_last {
        "└─ "@
    } else {
        "├─ "@
    })
}

/// The text of a stage's job lines from index `j` on.
pub open spec fn jobs_text_from(jobs: Seq<String>, j: int, stage_last: bool) -> Seq<char>
    decreases jobs.len() - j,
{
    if 0 <= j < jobs.len() {
        job_prefix(stage_last, j == jobs.len() - 1) + jobs[j]@ + "\n"@ + jobs_text_from(
            jobs,
            j + 1,
            stage_last,
        )
    } else {
        Seq::empty()
    }
}

/// The text of the stage blocks from index `k` on.
pub open spec fn stages_text_from(stages: Seq<StageLines>, k: int) -> Seq<char>
    decreases stages.len() - k,
{
    if 0 <= k < stages.len() {
        stage_prefix(k == stages.len() - 1) + stages[k].header@ + "\n"@ + jobs_text_from(
            stages[k].jobs@,
            0,
            k == stages.len() - 1,
        ) + stages_text_from(stages, k + 1)
    } else {
        Seq::empty()
    }
}

/// The full tree text of one pipeline: the root line, then one indented
/// block per stage, every line newline-terminated.
pub open spec fn pipeline_text(l: PipelineLines) -> Seq<char> {
    l.root@ + "\n"@ + stages_text_from(l.stages@, 0)
}

/// A correctly rendered pipeline tree: the glyph layout of some line
/// texts that are correct for the pipeline.
pub open spec fn pipeline_rendered_ok(r: Seq<char>, p: Pipeline, now: i64) -> bool {
    exists|l: PipelineLines| #[trigger] lines_ok(l, p, now) && r == pipeline_text(l)
}

/// Computes one stage's line texts.
fn stage_lines(st: &Stage) -> (r: StageLines)
    ensures
        stage_lines_ok(r, *st),
{
    let header = st.line();
    let mut jobs: Vec<String> = Vec::new();
    let mut j: usize = 0;
    while j < st.jobs.len()
        invariant
            j <= st.jobs.len(),
            jobs@.len() == j,
            forall|i: int|
                0 <= i < j ==> job_line_ok((#[trigger] jobs@[i])@, st.jobs@[i]),
        decreases st.jobs.len() - j,
    {
        let line = st.jobs[j].line();
        jobs.push(line);
        j = j + 1;
    }
    StageLines { header, jobs }
}

/// Computes one pipeline's line texts; fails only on an invalid present
/// `finished_at`.
fn pipeline_lines(p: &Pipeline, now_unix: i64) -> (r: Result<PipelineLines, GlpError>)
    requires
        spec_is_finished(p.status) ==> sum_stages_ms(p.stages@) / 1000 <= u64::MAX,
    ensures
        p.show_finished && spec_fin_opt(*p, now_unix) is None ==> r is Err
            && r->Err_0 is TimestampParse,
        !(p.show_finished && spec_fin_opt(*p, now_unix) is None) ==> r is Ok && lines_ok(
            r->Ok_0,
            *p,
            now_unix,
        ),
{
    let root = match p.root_line(now_unix) {
        Result::Ok(s) => s,
        Result::Err(e) => {
            return Result::Err(e);
        },
    };
    let mut stages: Vec<StageLines> = Vec::new();
    let mut k: usize = 0;
    while k < p.stages.len()
        invariant
            k <= p.stages.len(),
            stages@.len() == k,
            forall|i: int|
                0 <= i < k ==> stage_lines_ok(#[trigger] stages@[i], p.stages@[i]),
        decreases p.stages.len() - k,
    {
        let sl = stage_lines(&p.stages[k]);
        stages.push(sl);
        k = k + 1;
    }
    Result::Ok(PipelineLines { root, stages })
}

/// Lays the computed lines out as an indented tree.
fn render_from_lines(l: &PipelineLines) -> (r: String)
    ensures
        r@ == pipeline_text(*l),
{
    let mut out = String::new();
    out.append(l.root.as_str());
    out.append("\n");
    let stage_count = l.stages.len();
    let mut k: usize = 0;
    proof {
        assert(out@ + stages_text_from(l.stages@, 0) =~= pipeline_text(*l));
    }
    while k < stage_count
        invariant
            k <= stage_count,
            stage_count == l.stages@.len(),
            out@ + stages_text_from(l.stages@, k as int) == pipeline_text(*l),
        decreases stage_count - k,
    {
        let ghost out_at_stage = out@;
        let stage_last = k == stage_count - 1;
        if stage_last {
            out.append("└─ ");
        } else {
            out.append("├─ ");
        }
        let sl = &l.stages[k];
        out.append(sl.header.as_str());
        out.append("\n");
        let job_count = sl.jobs.len();
        let mut j: usize = 0;
        proof {
            assert(stages_text_from(l.stages@, k as int) == stage_prefix(stage_last) + sl.header@
                + "\n"@ + jobs_text_from(sl.jobs@, 0, stage_last) + stages_text_from(
                l.stages@,
                k as int + 1,
            ));
            assert(out@ + jobs_text_from(sl.jobs@, 0, stage_last) + stages_text_from(
                l.stages@,
                k as int + 1,
            ) =~= out_at_stage + stages_text_from(l.stages@, k as int));
        }
        while j < job_count
            invariant
                j <= job_count,
                k < stage_count,
                stage_count == l.stages@.len(),
                sl == &l.stages@[k as int],
                job_count == sl.jobs@.len(),
                stage_last == (k == l.stages@.len() - 1),
                out@ + jobs_text_from(sl.jobs@, j as int, stage_last) + stages_text_from(
                    l.stages@,
                    k as int + 1,
                ) == pipeline_text(*l),
            decreases job_count - j,
        {
            let ghost out_at_job = out@;
            let job_last = j == job_count - 1;
            if stage_last {
                out.append("   ");
            } else {
                out.append("│  ");
            }
            if job_last {
                out.append("└─ ");
            } else {
                out.append("├─ ");
            }
            out.append(sl.jobs[j].as_str());
            out.append("\n");
            proof {
                assert(jobs_text_from(sl.jobs@, j as int, stage_last) == job_prefix(
                    stage_last,
                    job_last,
                ) + sl.jobs@[j as int]@ + "\n"@ + jobs_text_from(
                    sl.jobs@,
                    j as int + 1,
                    stage_last,
                ));
                assert(out@ + jobs_text_from(sl.jobs@, j as int + 1, stage_last)
                    =~= out_at_job + jobs_text_from(sl.jobs@, j as int, stage_last));
            }
            j = j + 1;
        }
        proof {
            assert(jobs_text_from(sl.jobs@, job_count as int, stage_last) == Seq::<char>::empty());
            assert(out@ + stages_text_from(l.stages@, k as int + 1) =~= out@ + jobs_text_from(
                sl.jobs@,
                job_count as int,
                stage_last,
            ) + stages_text_from(l.stages@, k as int + 1));
        }
        k = k + 1;
    }
    proof {
        assert(stages_text_from(l.stages@, stage_count as int) == Seq::<char>::empty());
        assert(out@ =~= out@ + stages_text_from(l.stages@, stage_count as int));
    }
    out
}

/// Renders one pipeline as an indented tree, one line per pipeline,
/// stage and job, every line newline-terminated.  Fails exactly when a
/// requested finished-ago suffix meets an invalid `finished_at`.
pub fn render_pipeline(p: &Pipeline, now_unix: i64) -> (r: Result<String, GlpError>)
    requires
        spec_is_finished(p.status) ==> sum_stages_ms(p.stages@) / 1000 <= u64::MAX,
    ensures
        p.show_finished && spec_fin_opt(*p, now_unix) is None ==> r is Err
            && r->Err_0 is TimestampParse,
        !(p.show_finished && spec_fin_opt(*p, now_unix) is None) ==> r is Ok
            && pipeline_rendered_ok(r->Ok_0@, *p, now_unix),
{
    match pipeline_lines(p, now_unix) {
        Result::Ok(l) => {
            let text = render_from_lines(&l);
            proof {
                assert(lines_ok(l, *p, now_unix));
            }
            Result::Ok(text)
        },
        Result::Err(e) => Result::Err(e),
    }
}

/// Whether some pipeline in the sequence would fail rendering on an
/// invalid present `finished_at`.
pub open spec fn any_bad_timestamp(ps: Seq<Pipeline>, now: i64) -> bool {
    exists|i: int|
        0 <= i < ps.len() && (#[trigger] ps[i]).show_finished && spec_fin_opt(ps[i], now) is None
}

/// Renders every pipeline's tree, in the order given — the pipeline-list
/// order, not the order fetches completed in.
pub fn render_each(ps: &Vec<Pipeline>, now_unix: i64) -> (r: Result<Vec<String>, GlpError>)
    requires
        forall|i: int|
            0 <= i < ps@.len() && spec_is_finished((#[trigger] ps@[i]).status) ==> sum_stages_ms(
                ps@[i].stages@,
            ) / 1000 <= u64::MAX,
    ensures
        !any_bad_timestamp(ps@, now_unix) ==> r is Ok && r->Ok_0@.len() == ps@.len() && (forall|
            i: int,
        |
            0 <= i < ps@.len() ==> pipeline_rendered_ok(
                (#[trigger] r->Ok_0@[i])@,
                ps@[i],
                now_unix,
            )),
        any_bad_timestamp(ps@, now_unix) ==> r is Err && r->Err_0 is TimestampParse,
{
    let mut out: Vec<String> = Vec::new();
    let mut i: usize = 0;
    while i < ps.len()
        invariant
            i <= ps@.len(),
            out@.len() == i,
            forall|k: int|
                0 <= k < ps@.len() && spec_is_finished((#[trigger] ps@[k]).status)
                    ==> sum_stages_ms(ps@[k].stages@) / 1000 <= u64::MAX,
            forall|k: int|
                0 <= k < i ==> !((#[trigger] ps@[k]).show_finished && spec_fin_opt(
                    ps@[k],
                    now_unix,
                ) is None),
            forall|k: int|
                0 <= k < i ==> pipeline_rendered_ok((#[trigger] out@[k])@, ps@[k], now_unix),
        decreases ps@.len() - i,
    {
        match render_pipeline(&ps[i], now_unix) {
            Result::Ok(t) => {
                out.push(t);
            },
            Result::Err(e) => {
                proof {
                    assert(ps@[i as int].show_finished && spec_fin_opt(
                        ps@[i as int],
                        now_unix,
                    ) is None);
                }
                return Result::Err(e);
            },
        }
        i = i + 1;
    }
    Result::Ok(out)
}

/// The trees joined with one blank line between successive trees (each
/// tree already ends in a newline, so one extra newline separates them).
pub open spec fn joined_text(trees: Seq<String>, i: int) -> Seq<char>
    decreases trees.len() - i,
{
    if 0 <= i < trees.len() {
        (if i > 0 {
            "\n"@
        } else {
            Seq::empty()
        }) + trees[i]@ + joined_text(trees, i + 1)
    } else {
        Seq::empty()
    }
}

/// Joins rendered trees with exactly one blank line between successive
/// trees and none before the first.
pub fn join_trees(trees: &Vec<String>) -> (r: String)
    ensures
        r@ == joined_text(trees@, 0),
{
    let mut out = String::new();
    let mut i: usize = 0;
    proof {
        assert(out@ + joined_text(trees@, 0) =~= joined_text(trees@, 0));
    }
    while i < trees.len()
        invariant
            i <= trees@.len(),
            out@ + joined_text(trees@, i as int) == joined_text(trees@, 0),
        decreases trees@.len() - i,
    {
        let ghost out_before = out@;
        if i > 0 {
            out.append("\n");
        }
        out.append(trees[i].as_str());
        proof {
            assert(joined_text(trees@, i as int) == (if i > 0 {
                "\n"@
            } else {
                Seq::<char>::empty()
            }) + trees@[i as int]@ + joined_text(trees@, i as int + 1));
            assert(out@ + joined_text(trees@, i as int + 1) =~= out_before + joined_text(
                trees@,
                i as int,
            ));
        }
        i = i + 1;
    }
    proof {
        assert(joined_text(trees@, trees@.len() as int) == Seq::<char>::empty());
        assert(out@ =~= out@ + joined_text(trees@, trees@.len() as int));
    }
    out
}

} // verus!
