use glp::job::{sort_jobs, Job};
use glp::pipeline::assemble;
use glp::stage::{group_jobs, sort_stages, Stage};
use glp::status::Status;
use glp::style::Label;

fn job(name: &str, stage: &str, started: Option<&str>, ms: Option<u64>) -> Job {
    Job {
        id: String::from("1"),
        name: Label(String::from(name)),
        web_url: String::new(),
        status: Status::from_text(String::from("success")),
        stage: String::from(stage),
        started_at: started.map(String::from),
        duration_ms: ms,
    }
}

fn names_of(stages: &[Stage]) -> Vec<String> {
    stages.iter().map(|s| s.name.0.clone()).collect()
}

#[test]
fn grouping_matches_each_jobs_stage_field() {
    let jobs = vec![
        job("a", "build", None, None),
        job("b", "test", None, None),
        job("c", "build", None, None),
        job("d", "deploy", None, None),
        job("e", "test", None, None),
    ];
    let stages = group_jobs(jobs);
    assert_eq!(names_of(&stages), vec!["build", "test", "deploy"]);
    for st in &stages {
        for j in &st.jobs {
            assert_eq!(j.stage, st.name.0);
        }
    }
    let total: usize = stages.iter().map(|s| s.jobs.len()).sum();
    assert_eq!(total, 5);
    assert_eq!(stages[0].jobs.len(), 2);
    assert_eq!(stages[1].jobs.len(), 2);
    assert_eq!(stages[2].jobs.len(), 1);
    assert_eq!(stages[0].jobs[0].name.0, "a");
    assert_eq!(stages[0].jobs[1].name.0, "c");
}

#[test]
fn jobs_without_start_sort_after_started_ones() {
    let jobs = vec![
        job("late", "build", None, None),
        job("early", "build", Some("2026-01-01T00:00:10+00:00"), None),
        job("earliest", "build", Some("2026-01-01T00:00:00+00:00"), None),
    ];
    let sorted = sort_jobs(jobs);
    let names: Vec<&str> = sorted.iter().map(|j| j.name.0.as_str()).collect();
    assert_eq!(names, vec!["earliest", "early", "late"]);
}

#[test]
fn stages_sort_by_earliest_started_job() {
    let deploy = Stage {
        name: Label(String::from("deploy")),
        jobs: vec![job("d", "deploy", Some("2026-01-01T02:00:00+00:00"), None)],
    };
    let build = Stage {
        name: Label(String::from("build")),
        jobs: vec![
            job("b1", "build", Some("2026-01-01T01:00:00+00:00"), None),
            job("b2", "build", Some("2026-01-01T00:30:00+00:00"), None),
        ],
    };
    let never = Stage { name: Label(String::from("never")), jobs: vec![job("n", "never", None, None)] };
    let sorted = sort_stages(vec![never, deploy, build]);
    assert_eq!(names_of(&sorted), vec!["build", "deploy", "never"]);
}

#[test]
fn stage_with_no_started_jobs_sorts_last() {
    let pending = Stage {
        name: Label(String::from("pending")),
        jobs: vec![job("p", "pending", None, None)],
    };
    let active = Stage {
        name: Label(String::from("active")),
        jobs: vec![
            job("x", "active", None, None),
            job("y", "active", Some("2026-01-01T00:00:00+00:00"), None),
        ],
    };
    let sorted = sort_stages(vec![pending, active]);
    assert_eq!(names_of(&sorted), vec!["active", "pending"]);
}

#[test]
fn assemble_groups_sorts_and_keeps_identity() {
    let jobs = vec![
        job("t1", "test", Some("2026-01-01T00:10:00+00:00"), Some(3000)),
        job("b2", "build", None, Some(1000)),
        job("b1", "build", Some("2026-01-01T00:00:00+00:00"), Some(2000)),
    ];
    let p = assemble(
        String::from("77"),
        String::from("main"),
        String::from("success"),
        jobs,
        false,
        None,
    );
    assert_eq!(p.id.0, "77");
    assert_eq!(p.git_ref, "main");
    assert_eq!(p.status.as_text(), "success");
    assert!(!p.show_finished);
    assert!(p.details.is_none());
    assert_eq!(names_of(&p.stages), vec!["build", "test"]);
    let build_names: Vec<&str> = p.stages[0].jobs.iter().map(|j| j.name.0.as_str()).collect();
    assert_eq!(build_names, vec!["b1", "b2"]);
}

#[test]
fn stages_with_equal_earliest_starts_both_survive_sorting() {
    let a = Stage {
        name: Label(String::from("a")),
        jobs: vec![job("ja", "a", Some("2026-01-01T00:00:00+00:00"), None)],
    };
    let b = Stage {
        name: Label(String::from("b")),
        jobs: vec![job("jb", "b", Some("2026-01-01T00:00:00+00:00"), None)],
    };
    let sorted = sort_stages(vec![a, b]);
    let mut names = names_of(&sorted);
    names.sort();
    assert_eq!(names, vec!["a", "b"]);
}
