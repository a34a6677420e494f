use vstd::prelude::*;
use vstd::string::StringExecFns;
use vstd::multiset::Multiset;
use crate::status::Status;
use crate::style::{Label, label_rendered};
use crate::order::{opt_start_le, opt_text, opt_start_le_exec, lemma_opt_start_le_total,
    lemma_opt_start_le_trans};

verus! {

broadcast use vstd::seq_lib::group_to_multiset_ensures;

/// One job of a CI pipeline.
///
/// `started_at` is the ISO-8601 start timestamp as the API sent it, or
/// `None` for a job that has not started.  `duration_ms` is the job's
/// duration in milliseconds, or `None` when the API reported none.
#[derive(Debug, Clone, PartialEq, Eq)]
pub struct Job {
    pub id: String,
    pub name: Label,
    pub web_url: String,
    pub status: Status,
    pub stage: String,
    pub started_at: Option<String>,
    pub duration_ms: Option<u64>,
}

/// The text a duration is displayed as, humanized to whole seconds, or
/// the `-` placeholder when the job has none.
pub open spec fn dur_text(d: Option<u64>) -> Seq<char> {
    match d {
        Option::Some(ms) => human_secs((ms / 1000) as u64),
        Option::None => "-"@,
    }
}

/// What `humantime` renders a whole-second duration as.
pub uninterp spec fn human_secs(secs: u64) -> Seq<char>;

/// Relies on `humantime::format_duration`: the rendered text depends on
/// the duration value alone.
#[verifier::external_body]
pub fn format_secs(secs: u64) -> (r: String)
    ensures
        r@ == human_secs(secs),
{
    humantime::format_duration(std::time::Duration::from_secs(secs)).to_string()
}

/// The one line a job contributes to the tree: its styled name followed
/// by its duration (or `-`) in parentheses.
pub open spec fn job_line_ok(r: Seq<char>, j: Job) -> bool {
    exists|styled: Seq<char>|
        #[trigger] label_rendered(styled, j.name.0@, j.status) && r == styled + " ("@ + dur_text(
            j.duration_ms,
        ) + ")"@
}

impl Job {
    /// Renders the job's tree line.
    pub fn line(&self) -> (r: String)
        ensures
            job_line_ok(r@, *self),
    {
        let styled = self.name.to_string(&self.status);
        let ghost styled_view = styled@;
        let mut r = styled;
        r.append(" (");
        match &self.duration_ms {
            Option::Some(ms) => {
                let secs = *ms / 1000;
                let d = format_secs(secs);
                r.append(d.as_str());
            },
            Option::None => {
                r.append("-");
            },
        }
        r.append(")");
        proof {
            assert(label_rendered(styled_view, self.name.0@, self.status));
            assert(r@ == styled_view + " ("@ + dur_text(self.duration_ms) + ")"@);
        }
        r
    }
}

/// Job order within a stage: by start timestamp, jobs that have not
/// started last.
pub open spec fn job_le(a: Job, b: Job) -> bool {
    opt_start_le(opt_text(a.started_at), opt_text(b.started_at))
}

pub open spec fn jobs_sorted(s: Seq<Job>) -> bool {
    forall|i: int, j: int| 0 <= i < j < s.len() ==> #[trigger] job_le(s[i], s[j])
}

fn job_le_exec(a: &Job, b: &Job) -> (r: bool)
    ensures
        r == job_le(*a, *b),
{
    opt_start_le_exec(&a.started_at, &b.started_at)
}

proof fn lemma_jobs_sorted_insert(s: Seq<Job>, x: Job, pos: int)
    requires
        jobs_sorted(s),
        0 <= pos <= s.len(),
        forall|j: int| 0 <= j < pos ==> job_le(#[trigger] s[j], x),
        forall|j: int| pos <= j < s.len() ==> job_le(x, #[trigger] s[j]),
    ensures
        jobs_sorted(s.insert(pos, x)),
{
    s.insert_ensures(pos, x);
    let t = s.insert(pos, x);
    assert forall|i: int, j: int| 0 <= i < j < t.len() implies #[trigger] job_le(t[i], t[j]) by {
        if i < pos && j < pos {
            assert(job_le(s[i], s[j]));
        } else if i < pos && j == pos {
            assert(job_le(s[i], x));
        } else if i < pos && j > pos {
            assert(job_le(s[i], s[j - 1]));
        } else if i == pos {
            assert(job_le(x, s[j - 1]));
        } else {
            assert(job_le(s[i - 1], s[j - 1]));
        }
    }
}

/// Sorts a stage's jobs by start time; jobs without one sort last.  The
/// result is a permutation of the input.
pub fn sort_jobs(jobs: Vec<Job>) -> (r: Vec<Job>)
    ensures
        jobs_sorted(r@),
        r@.to_multiset() == jobs@.to_multiset(),
{
    let mut src = jobs;
    let mut out: Vec<Job> = Vec::new();
    let ghost orig = src@;
    proof {
        assert(out@.to_multiset().add(src@.to_multiset()) =~= orig.to_multiset());
    }
    while src.len() > 0
        invariant
            jobs_sorted(out@),
            out@.to_multiset().add(src@.to_multiset()) == orig.to_multiset(),
        decreases src.len(),
    {
        let ghost src_before = src@;
        let ghost out_before = out@;
        let x = src.remove(0);
        proof {
            assert(src_before.to_multiset().count(x) >= 1) by {
                assert(src_before.contains(x)) by {
                    assert(src_before[0] == x);
                }
            }
        }
        let mut pos: usize = 0;
        while pos < out.len() && job_le_exec(&out[pos], &x)
            invariant
                pos <= out.len(),
                jobs_sorted(out@),
                forall|j: int| 0 <= j < pos ==> job_le(#[trigger] out@[j], x),
            decreases out.len() - pos,
        {
            pos = pos + 1;
        }
        proof {
            if pos < out.len() {
                lemma_opt_start_le_total(opt_text(out@[pos as int].started_at), opt_text(
                    x.started_at,
                ));
                assert(job_le(x, out@[pos as int]));
            }
            assert forall|j: int| pos <= j < out.len() implies job_le(x, #[trigger] out@[j]) by {
                assert(job_le(x, out@[pos as int]));
                if j > pos {
                    assert(job_le(out@[pos as int], out@[j]));
                    lemma_opt_start_le_trans(
                        opt_text(x.started_at),
                        opt_text(out@[pos as int].started_at),
                        opt_text(out@[j].started_at),
                    );
                }
            }
            lemma_jobs_sorted_insert(out@, x, pos as int);
        }
        out.insert(pos, x);
        proof {
            assert(out@.to_multiset() == out_before.to_multiset().insert(x));
            assert(src@.to_multiset() == src_before.to_multiset().remove(x)) by {
                assert(src@ == src_before.remove(0));
            }
            assert(out@.to_multiset().add(src@.to_multiset()) =~= orig.to_multiset());
        }
    }
    proof {
        assert(src@.to_multiset() =~= Multiset::<Job>::empty()) by {
            assert(src@ =~= Seq::<Job>::empty());
        }
        assert(out@.to_multiset() =~= orig.to_multiset());
    }
    out
}

} // verus!
