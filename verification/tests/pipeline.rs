use ghss::action_ref::ActionRef;
use ghss::context::AuditContext;
use ghss::pipeline::{Pipeline, PipelineBuilder};
use ghss::stage::Stage;
use std::sync::{Arc, Mutex};

fn test_ctx() -> AuditContext {
    AuditContext {
        action: "actions/checkout@v4".parse().unwrap(),
        depth: 0,
        parent: None,
        index: None,
        children: vec![],
        resolved_ref: None,
        advisories: vec![],
        scan: None,
        dependencies: vec![],
        errors: vec![],
    }
}

struct TrackingStage {
    name: &'static str,
    log: Arc<Mutex<Vec<String>>>,
}

impl Stage for TrackingStage {
    fn run(&self, _ctx: &mut AuditContext) -> Result<(), String> {
        self.log.lock().unwrap().push(self.name.to_string());
        Ok(())
    }
    fn name(&self) -> &'static str {
        self.name
    }
}

struct FailingStage {
    name: &'static str,
    log: Arc<Mutex<Vec<String>>>,
}

impl Stage for FailingStage {
    fn run(&self, _ctx: &mut AuditContext) -> Result<(), String> {
        self.log.lock().unwrap().push(self.name.to_string());
        Err("boom".to_string())
    }
    fn name(&self) -> &'static str {
        self.name
    }
}

struct NoOpStage(&'static str);

impl Stage for NoOpStage {
    fn run(&self, _ctx: &mut AuditContext) -> Result<(), String> {
        Ok(())
    }
    fn name(&self) -> &'static str {
        self.0
    }
}

#[test]
fn pipeline_builder_defaults() {
    let pipeline = PipelineBuilder::new().build();
    assert_eq!(pipeline.stage_count(), 0);
    assert_eq!(pipeline.max_concurrency(), 10);
}

#[test]
fn pipeline_builder_stage_count() {
    let log = Arc::new(Mutex::new(Vec::new()));
    let pipeline = PipelineBuilder::new()
        .stage(TrackingStage { name: "a", log: log.clone() })
        .stage(TrackingStage { name: "b", log: log.clone() })
        .stage(TrackingStage { name: "c", log: log.clone() })
        .build();
    assert_eq!(pipeline.stage_count(), 3);
}

#[test]
fn pipeline_builder_max_concurrency() {
    let pipeline = PipelineBuilder::new().max_concurrency(5).build();
    assert_eq!(pipeline.max_concurrency(), 5);
}

#[test]
fn pipeline_builder_stage_ordering() {
    let log = Arc::new(Mutex::new(Vec::new()));
    let pipeline = PipelineBuilder::new()
        .stage(TrackingStage { name: "first", log: log.clone() })
        .stage(TrackingStage { name: "second", log: log.clone() })
        .stage(TrackingStage { name: "third", log: log.clone() })
        .build();

    let names: Vec<&str> = pipeline.stage_names();
    assert_eq!(names, vec!["first", "second", "third"]);
}

#[test]
fn builder_defaults() {
    let pipeline = Pipeline::builder().build();
    assert_eq!(pipeline.stage_count(), 0);
    assert_eq!(pipeline.max_concurrency(), 10);
}

#[test]
fn builder_stage_count() {
    let pipeline = Pipeline::builder()
        .stage(NoOpStage("a"))
        .stage(NoOpStage("b"))
        .stage(NoOpStage("c"))
        .build();
    assert_eq!(pipeline.stage_count(), 3);
}

#[test]
fn builder_max_concurrency() {
    let pipeline = Pipeline::builder().max_concurrency(5).build();
    assert_eq!(pipeline.max_concurrency(), 5);
}

#[test]
fn builder_stage_ordering() {
    let pipeline = Pipeline::builder()
        .stage(NoOpStage("first"))
        .stage(NoOpStage("second"))
        .stage(NoOpStage("third"))
        .build();

    let names: Vec<&str> = pipeline.stage_names();
    assert_eq!(names, vec!["first", "second", "third"]);
}

#[test]
fn run_one_with_no_stages() {
    let pipeline = PipelineBuilder::new().build();
    let mut ctx = test_ctx();
    pipeline.run_one(&mut ctx);
    assert!(ctx.errors.is_empty());
}

#[test]
fn run_one_processes_context() {
    let log = Arc::new(Mutex::new(Vec::new()));
    let pipeline = PipelineBuilder::new().stage(TrackingStage { name: "test", log: log.clone() }).build();
    let mut ctx = test_ctx();
    pipeline.run_one(&mut ctx);
    assert!(ctx.errors.is_empty());
}

#[test]
fn run_one_stages_execute_in_order() {
    let log = Arc::new(Mutex::new(Vec::new()));

    let pipeline = PipelineBuilder::new()
        .stage(TrackingStage { name: "first", log: log.clone() })
        .stage(TrackingStage { name: "second", log: log.clone() })
        .stage(TrackingStage { name: "third", log: log.clone() })
        .build();

    let mut ctx = test_ctx();
    pipeline.run_one(&mut ctx);

    let executed = log.lock().unwrap();
    assert_eq!(*executed, vec!["first", "second", "third"]);
    assert!(ctx.errors.is_empty());
}

#[test]
fn run_one_captures_error_and_continues() {
    let log = Arc::new(Mutex::new(Vec::new()));

    let pipeline = PipelineBuilder::new()
        .stage(TrackingStage { name: "before", log: log.clone() })
        .stage(FailingStage { name: "bad", log: log.clone() })
        .stage(TrackingStage { name: "after", log: log.clone() })
        .build();

    let mut ctx = test_ctx();
    pipeline.run_one(&mut ctx);

    // All three stages executed despite the middle one failing
    let executed = log.lock().unwrap();
    assert_eq!(*executed, vec!["before", "bad", "after"]);

    // Exactly one error captured with correct stage name and message
    assert_eq!(ctx.errors.len(), 1);
    assert_eq!(ctx.errors[0].stage, "bad");
    assert_eq!(ctx.errors[0].message, "boom");
}

#[test]
fn run_empty_actions() {
    let pipeline = Pipeline::builder().stage(NoOpStage("test")).build();
    let results = pipeline.run(vec![]);
    assert!(results.is_empty());
}

#[test]
fn run_processes_all_actions() {
    let pipeline = Pipeline::builder().build();
    let actions: Vec<ActionRef> =
        vec!["actions/checkout@v4".parse().unwrap(), "actions/setup-node@v3".parse().unwrap()];
    let results = pipeline.run(actions);
    assert_eq!(results.len(), 2);
    assert_eq!(results[0].action.raw, "actions/checkout@v4");
    assert_eq!(results[1].action.raw, "actions/setup-node@v3");
    assert!(results[0].advisories.is_empty());
}

#[test]
fn run_hands_each_action_its_position() {
    struct IndexStage;
    impl Stage for IndexStage {
        fn run(&self, ctx: &mut AuditContext) -> Result<(), String> {
            ctx.resolved_ref = Some(format!("{:?}/{}", ctx.index, ctx.depth));
            Ok(())
        }
        fn name(&self) -> &'static str {
            "index"
        }
    }
    let pipeline = Pipeline::builder().stage(IndexStage).build();
    let actions: Vec<ActionRef> = vec!["a/a@v1".parse().unwrap(), "b/b@v1".parse().unwrap()];
    let results = pipeline.run(actions);
    assert_eq!(results[0].resolved_sha, Some("Some(0)/0".to_string()));
    assert_eq!(results[1].resolved_sha, Some("Some(1)/0".to_string()));
}

#[test]
fn settle_records_the_error_of_a_failed_stage() {
    let mut ctx = test_ctx();
    Pipeline::settle(&mut ctx, "first", &Ok(()));
    assert!(ctx.errors.is_empty());
    Pipeline::settle(&mut ctx, "second", &Err("no route".to_string()));
    Pipeline::settle(&mut ctx, "third", &Err("timeout".to_string()));
    assert_eq!(ctx.errors.len(), 2);
    assert_eq!(ctx.errors[0].stage, "second");
    assert_eq!(ctx.errors[0].message, "no route");
    assert_eq!(ctx.errors[1].stage, "third");
    assert_eq!(ctx.errors[1].message, "timeout");
    ctx.record_error("fourth", "late");
    assert_eq!(ctx.errors[2].stage, "fourth");
    assert_eq!(ctx.errors.len(), 3);
}

#[test]
fn a_failing_stage_keeps_what_it_changed() {
    struct HalfDone;
    impl Stage for HalfDone {
        fn run(&self, ctx: &mut AuditContext) -> Result<(), String> {
            ctx.resolved_ref = Some("partial".to_string());
            Err("gave up".to_string())
        }
        fn name(&self) -> &'static str {
            "half"
        }
    }
    let pipeline = Pipeline::builder().stage(HalfDone).stage(NoOpStage("after")).build();
    let cloned = pipeline.clone();
    let mut ctx = test_ctx();
    cloned.run_one(&mut ctx);
    assert_eq!(ctx.resolved_ref, Some("partial".to_string()));
    assert_eq!(ctx.errors.len(), 1);
    assert_eq!(ctx.errors[0].stage, "half");
    assert_eq!(cloned.stage_count(), 2);
}
