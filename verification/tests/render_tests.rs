use glp::error::GlpError;
use glp::job::Job;
use glp::pipeline::{assemble, Details};
use glp::render::{join_trees, render_each, render_pipeline};
use glp::status::Status;
use glp::style::Label;

fn plain() {
    colored::control::set_override(false);
}

fn job(name: &str, stage: &str, status: &str, started: Option<&str>, ms: Option<u64>) -> Job {
    Job {
        id: String::from("1"),
        name: Label(String::from(name)),
        web_url: String::new(),
        status: Status::from_text(String::from(status)),
        stage: String::from(stage),
        started_at: started.map(String::from),
        duration_ms: ms,
    }
}

fn epoch_of(ts: &str) -> i64 {
    chrono::DateTime::parse_from_rfc3339(ts).unwrap().timestamp()
}

#[test]
fn one_pipeline_tree_with_duration_suffix() {
    plain();
    let jobs = vec![
        job("one", "build", "success", Some("2026-01-01T00:00:00+00:00"), Some(5000)),
        job("two", "build", "success", Some("2026-01-01T00:00:10+00:00"), Some(7000)),
    ];
    let p = assemble(
        String::from("1"),
        String::from("main"),
        String::from("success"),
        jobs,
        false,
        None,
    );
    let tree = render_pipeline(&p, 0).unwrap();
    assert_eq!(tree, "1 (main) [12s]\n└─ build\n   ├─ one (5s)\n   └─ two (7s)\n");
}

#[test]
fn running_pipeline_shows_no_duration_suffix() {
    plain();
    let jobs = vec![job("one", "build", "running", None, Some(5000))];
    let p = assemble(
        String::from("9"),
        String::from("dev"),
        String::from("running"),
        jobs,
        false,
        None,
    );
    let tree = render_pipeline(&p, 0).unwrap();
    assert_eq!(tree, "9 (dev)\n└─ build\n   └─ one (5s)\n");
}

#[test]
fn absent_durations_contribute_zero_to_the_sum() {
    plain();
    let jobs = vec![
        job("one", "build", "failed", None, Some(61000)),
        job("two", "build", "failed", None, None),
    ];
    let p = assemble(
        String::from("3"),
        String::from("main"),
        String::from("failed"),
        jobs,
        false,
        None,
    );
    let tree = render_pipeline(&p, 0).unwrap();
    assert!(tree.starts_with("3 (main) [1m 1s]\n"));
}

#[test]
fn unstarted_job_renders_dash_and_sorts_last() {
    plain();
    let jobs = vec![
        job("ghost", "build", "manual", None, None),
        job("real", "build", "success", Some("2026-01-01T00:00:00+00:00"), Some(1000)),
    ];
    let p = assemble(
        String::from("2"),
        String::from("main"),
        String::from("running"),
        jobs,
        false,
        None,
    );
    let tree = render_pipeline(&p, 0).unwrap();
    assert_eq!(tree, "2 (main)\n└─ build\n   ├─ real (1s)\n   └─ ghost [manual] (-)\n");
}

#[test]
fn finished_two_days_ago_gains_the_relative_suffix() {
    plain();
    let finished = "2026-10-06T12:00:00+00:00";
    let now = epoch_of(finished) + 2 * 86400;
    let p = assemble(
        String::from("5"),
        String::from("main"),
        String::from("success"),
        vec![job("one", "build", "success", None, Some(1000))],
        true,
        Some(Details { finished_at: Some(String::from(finished)) }),
    );
    let tree = render_pipeline(&p, now).unwrap();
    assert!(tree.starts_with("5 (main) [1s] [2 days ago]\n"), "got: {tree}");
}

#[test]
fn null_finished_at_omits_the_suffix_without_error() {
    plain();
    let p = assemble(
        String::from("5"),
        String::from("main"),
        String::from("success"),
        vec![job("one", "build", "success", None, Some(1000))],
        true,
        Some(Details { finished_at: None }),
    );
    let tree = render_pipeline(&p, 0).unwrap();
    assert!(tree.starts_with("5 (main) [1s]\n"), "got: {tree}");
}

#[test]
fn invalid_finished_at_is_a_timestamp_parse_error() {
    plain();
    let p = assemble(
        String::from("5"),
        String::from("main"),
        String::from("success"),
        vec![],
        true,
        Some(Details { finished_at: Some(String::from("not a timestamp")) }),
    );
    let err = render_pipeline(&p, 0).unwrap_err();
    assert!(matches!(err, GlpError::TimestampParse(_)));
}

#[test]
fn several_stages_use_branch_then_corner_glyphs() {
    plain();
    let jobs = vec![
        job("b", "build", "success", Some("2026-01-01T00:00:00+00:00"), None),
        job("t", "test", "success", Some("2026-01-01T00:10:00+00:00"), None),
    ];
    let p = assemble(
        String::from("4"),
        String::from("main"),
        String::from("running"),
        jobs,
        false,
        None,
    );
    let tree = render_pipeline(&p, 0).unwrap();
    assert_eq!(tree, "4 (main)\n├─ build\n│  └─ b (-)\n└─ test\n   └─ t (-)\n");
}

#[test]
fn trees_are_joined_with_one_blank_line_between() {
    plain();
    let p1 = assemble(
        String::from("1"),
        String::from("main"),
        String::from("running"),
        vec![],
        false,
        None,
    );
    let p2 = assemble(
        String::from("2"),
        String::from("dev"),
        String::from("running"),
        vec![],
        false,
        None,
    );
    let trees = render_each(&vec![p1, p2], 0).unwrap();
    assert_eq!(trees.len(), 2);
    let joined = join_trees(&trees);
    assert_eq!(joined, "1 (main)\n\n2 (dev)\n");
}

#[test]
fn rendering_keeps_the_given_pipeline_order() {
    plain();
    let mut pipelines = Vec::new();
    for id in ["7", "3", "5"] {
        pipelines.push(assemble(
            String::from(id),
            String::from("main"),
            String::from("running"),
            vec![],
            false,
            None,
        ));
    }
    let trees = render_each(&pipelines, 0).unwrap();
    assert!(trees[0].starts_with("7 "));
    assert!(trees[1].starts_with("3 "));
    assert!(trees[2].starts_with("5 "));
}

#[test]
fn disabled_colors_leave_labels_verbatim() {
    plain();
    let label = Label(String::from("deploy"));
    assert_eq!(label.to_string(&Status::Success), "deploy");
    assert_eq!(label.to_string(&Status::Failed), "deploy");
    assert_eq!(label.to_string(&Status::Running), "deploy");
    assert_eq!(label.to_string(&Status::Manual), "deploy [manual]");
}

#[test]
fn an_empty_pipeline_list_renders_to_nothing() {
    plain();
    let trees = render_each(&vec![], 0).unwrap();
    assert!(trees.is_empty());
    assert_eq!(join_trees(&trees), "");
}
