use glp::orchestrator::{Orchestrator, PipelineRecord};
use glp::pipeline::assemble;
use glp::pipeline::Pipeline;

fn record(id: &str, git_ref: &str, status: &str) -> PipelineRecord {
    PipelineRecord {
        id: String::from(id),
        git_ref: String::from(git_ref),
        status: String::from(status),
    }
}

fn pipeline_for(rec: &PipelineRecord) -> Pipeline {
    assemble(rec.id.clone(), rec.git_ref.clone(), rec.status.clone(), vec![], false, None)
}

#[test]
fn concurrency_cap_is_never_exceeded() {
    let records = vec![
        record("1", "main", "success"),
        record("2", "main", "success"),
        record("3", "main", "success"),
        record("4", "main", "success"),
        record("5", "main", "success"),
    ];
    let pipelines: Vec<Pipeline> = records.iter().map(pipeline_for).collect();
    let mut orch = Orchestrator::new(records, 2);

    let a = orch.start_next();
    let b = orch.start_next();
    assert_eq!(a, Some(0));
    assert_eq!(b, Some(1));
    assert_eq!(orch.in_flight, 2);
    // the cap is reached: no further unit may start
    assert_eq!(orch.start_next(), None);
    assert!(orch.in_flight <= orch.max_concurrency);

    orch.complete(0, Ok(pipelines[0].clone()));
    assert_eq!(orch.in_flight, 1);
    let c = orch.start_next();
    assert_eq!(c, Some(2));
    assert_eq!(orch.in_flight, 2);
    assert_eq!(orch.start_next(), None);

    orch.complete(1, Ok(pipelines[1].clone()));
    orch.complete(2, Ok(pipelines[2].clone()));
    let d = orch.start_next();
    let e = orch.start_next();
    assert_eq!(d, Some(3));
    assert_eq!(e, Some(4));
    assert!(orch.in_flight <= orch.max_concurrency);
    orch.complete(3, Ok(pipelines[3].clone()));
    orch.complete(4, Ok(pipelines[4].clone()));
    assert!(orch.all_done());
}

#[test]
fn results_keep_pipeline_list_order_despite_completion_order() {
    let records = vec![
        record("10", "main", "success"),
        record("20", "dev", "failed"),
        record("30", "main", "running"),
    ];
    let pipelines: Vec<Pipeline> = records.iter().map(pipeline_for).collect();
    let mut orch = Orchestrator::new(records, 3);
    assert_eq!(orch.start_next(), Some(0));
    assert_eq!(orch.start_next(), Some(1));
    assert_eq!(orch.start_next(), Some(2));
    // the later pipelines finish first
    orch.complete(2, Ok(pipelines[2].clone()));
    orch.complete(0, Ok(pipelines[0].clone()));
    orch.complete(1, Ok(pipelines[1].clone()));
    assert!(orch.all_done());
    let results = orch.into_results();
    let ids: Vec<String> = results
        .iter()
        .map(|r| r.as_ref().unwrap().id.0.clone())
        .collect();
    assert_eq!(ids, vec!["10", "20", "30"]);
}

#[test]
fn a_failed_unit_keeps_its_error_without_disturbing_siblings() {
    let records = vec![record("1", "main", "success"), record("2", "main", "success")];
    let pipelines: Vec<Pipeline> = records.iter().map(pipeline_for).collect();
    let mut orch = Orchestrator::new(records, 2);
    assert_eq!(orch.start_next(), Some(0));
    assert_eq!(orch.start_next(), Some(1));
    orch.complete(0, Err(glp::error::GlpError::Transport(String::from("http 502"))));
    orch.complete(1, Ok(pipelines[1].clone()));
    let results = orch.into_results();
    assert!(results[0].is_err());
    assert_eq!(results[1].as_ref().unwrap().id.0, "2");
}

#[test]
fn an_empty_pipeline_list_is_done_at_once() {
    let mut orch = Orchestrator::new(vec![], 4);
    assert_eq!(orch.start_next(), None);
    assert!(orch.all_done());
    let results = orch.into_results();
    assert!(results.is_empty());
}
