use glp::job::Job;
use glp::stage::Stage;
use glp::status::Status;
use glp::style::Label;
use glp::error::GlpError;

fn job_with_status(status: &str) -> Job {
    Job {
        id: String::from("1"),
        name: Label(String::from("a-job")),
        web_url: String::new(),
        status: Status::from_text(String::from(status)),
        stage: String::from("build"),
        started_at: None,
        duration_ms: None,
    }
}

fn stage_of(statuses: &[&str]) -> Stage {
    Stage {
        name: Label(String::from("build")),
        jobs: statuses.iter().map(|s| job_with_status(s)).collect(),
    }
}

#[test]
fn known_statuses_round_trip() {
    for s in ["success", "failed", "running", "manual", "unknown"] {
        let st = Status::from_text(String::from(s));
        assert_eq!(st.as_text(), s);
    }
}

#[test]
fn unrecognized_status_passes_through_verbatim() {
    let st = Status::from_text(String::from("scheduled"));
    assert!(matches!(st, Status::Other(_)));
    assert_eq!(st.as_text(), "scheduled");
}

#[test]
fn find_status_running_dominates_everything() {
    let st = stage_of(&["success", "failed", "running", "manual"]);
    assert_eq!(st.find_status().as_text(), "running");
}

#[test]
fn find_status_failed_dominates_success() {
    let st = stage_of(&["success", "failed", "success"]);
    assert_eq!(st.find_status().as_text(), "failed");
}

#[test]
fn find_status_success_when_no_failure() {
    let st = stage_of(&["manual", "success"]);
    assert_eq!(st.find_status().as_text(), "success");
}

#[test]
fn find_status_unknown_for_empty_stage() {
    let st = Stage { name: Label(String::from("empty")), jobs: vec![] };
    assert_eq!(st.find_status().as_text(), "unknown");
}

#[test]
fn find_status_unknown_for_unrecognized_only() {
    let st = stage_of(&["manual", "scheduled"]);
    assert_eq!(st.find_status().as_text(), "unknown");
}

#[test]
fn error_messages_carry_their_text() {
    assert_eq!(GlpError::Config(String::from("no token")).message(), "no token");
    assert_eq!(GlpError::Transport(String::from("http 500")).message(), "http 500");
    assert_eq!(GlpError::Parse(String::from("bad body")).message(), "bad body");
    assert_eq!(GlpError::TimestampParse(String::from("nope")).message(), "nope");
}
