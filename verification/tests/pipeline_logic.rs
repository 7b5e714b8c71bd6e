//! Tests of the pipeline front end: the DSL, validation and scheduling.
use rustpipe::error::PipelineError;
use rustpipe::pipeline::dag::{build_execution_waves, waves_from_toposort, Scheduler, ShellExecutor, TypedPipeline};
use rustpipe::pipeline::dsl::parse_dsl;
use rustpipe::pipeline::model::{Pipeline, RetryConfig, Stage, StageStatus, Step};
use rustpipe::pipeline::validator::Validator;
use rustpipe::pipeline::{is_dsl_path, parse_dsl_source};
use rustpipe::strmap::StrMap;

fn step(name: &str, run: &str) -> Step {
    Step { name: name.to_string(), run: run.to_string(), artifact: None, retry: None }
}

fn stage(needs: Option<&[&str]>, steps: Vec<Step>) -> Stage {
    Stage {
        runs_on: "rust:latest".to_string(),
        steps,
        needs: needs.map(|n| n.iter().map(|s| s.to_string()).collect()),
        when: None,
        timeout_secs: None,
        matrix: None,
        fail_fast: false,
    }
}

fn pipeline(name: &str, stages: Vec<(&str, Stage)>) -> Pipeline {
    let mut map = StrMap::new();
    for (k, v) in stages {
        map.insert(k.to_string(), v);
    }
    Pipeline { name: name.to_string(), trigger: None, stages: map, secrets: None, notify: None }
}

fn validation(r: Result<(), PipelineError>) -> (String, String) {
    match r {
        Err(PipelineError::Validation { field, message }) => (field, message),
        other => panic!("expected a validation error, got {:?}", other),
    }
}

#[test]
fn dsl_readme_example_with_when() {
    let src = "pipeline my-pipeline\n\nstage lint\n  runs-on rust:latest\n  step \"Run clippy\"\n    run cargo clippy -- -D warnings\n  end\nend\n\nstage test\n  runs-on rust:latest\n  needs lint\n  when branch == \"main\"\n  step \"Run tests\"\n    run cargo test --all\n  end\nend\n";
    let p = parse_dsl(src).unwrap();
    assert_eq!(p.name, "my-pipeline");
    assert_eq!(p.stages.len(), 2);
    let lint = p.stages.get("lint").unwrap();
    assert_eq!(lint.runs_on, "rust:latest");
    assert_eq!(lint.steps.len(), 1);
    assert_eq!(lint.steps[0].name, "Run clippy");
    assert_eq!(lint.steps[0].run, "cargo clippy -- -D warnings");
    assert!(lint.needs.is_none());
    let test = p.stages.get("test").unwrap();
    assert_eq!(test.when.as_deref(), Some("branch == \"main\""));
    assert_eq!(test.needs.as_deref().unwrap(), &["lint"]);
    assert!(!test.fail_fast);
    assert!(test.timeout_secs.is_none());
}

#[test]
fn dsl_missing_header_error_text() {
    let e = parse_dsl("  stage x").unwrap_err();
    assert_eq!(e, "Expected 'pipeline': Parsing Error: Error { input: \"stage x\", code: Tag }");
}

#[test]
fn dsl_missing_space_error_text() {
    let e = parse_dsl("pipeline\nx").unwrap_err();
    assert_eq!(e, "Parsing Error: Error { input: \"\\nx\", code: Space }");
}

#[test]
fn dsl_lone_carriage_return_error_text() {
    let e = parse_dsl("pipeline a\rb").unwrap_err();
    assert_eq!(e, "Parsing Error: Error { input: \"a\\rb\", code: Tag }");
}

#[test]
fn dsl_source_error_is_dsl_field() {
    match parse_dsl_source("nothing") {
        Err(PipelineError::Validation { field, message }) => {
            assert_eq!(field, "dsl");
            assert!(message.starts_with("Expected 'pipeline': "));
        }
        _ => panic!("expected an error"),
    }
}

#[test]
fn dsl_crlf_and_multiple_needs() {
    let src = "pipeline p\r\nstage a\r\n runs-on img\r\n end\r\nstage b\r\n runs-on img\r\n needs a  c\r\n end\r\n";
    let p = parse_dsl(src).unwrap();
    assert_eq!(p.name, "p");
    assert_eq!(p.stages.len(), 2);
    assert_eq!(p.stages.get("b").unwrap().needs.as_deref().unwrap(), &["a", "c"]);
    assert!(p.stages.get("a").unwrap().steps.is_empty());
}

#[test]
fn dsl_stops_at_a_broken_stage_and_ignores_the_rest() {
    let src = "pipeline p\nstage a\n runs-on img\nend\nstage b\n end\nstage c\n runs-on img\nend\n";
    let p = parse_dsl(src).unwrap();
    assert_eq!(p.stages.len(), 1);
    assert!(p.stages.contains_key("a"));
}

#[test]
fn dsl_duplicate_stage_replaces_in_place() {
    let src = "pipeline p\nstage a\n runs-on one\nend\nstage b\n runs-on two\nend\nstage a\n runs-on three\nend\n";
    let p = parse_dsl(src).unwrap();
    assert_eq!(p.stages.len(), 2);
    assert_eq!(p.stages.key_at(0), "a");
    assert_eq!(p.stages.get("a").unwrap().runs_on, "three");
}

#[test]
fn dsl_trims_name_and_command() {
    let src = "pipeline   spaced name  \nstage s\n runs-on img\n step \"x y\"\n run   echo hi   \n end\nend";
    let p = parse_dsl(src).unwrap();
    assert_eq!(p.name, "spaced name");
    let s = p.stages.get("s").unwrap();
    assert_eq!(s.steps[0].name, "x y");
    assert_eq!(s.steps[0].run, "echo hi");
}

#[test]
fn dsl_path_detection() {
    assert!(is_dsl_path("ci.rustpipe"));
    assert!(!is_dsl_path(".rustpipe.yml"));
}

#[test]
fn validate_reports_each_rule() {
    let ok = step("s", "echo");
    let p = pipeline("", vec![("a", stage(None, vec![ok.clone()]))]);
    assert_eq!(validation(p.validate()), ("pipeline.name".to_string(), "pipeline name cannot be empty".to_string()));
    let p = pipeline("p", vec![]);
    assert_eq!(validation(p.validate()), ("pipeline.stages".to_string(), "pipeline must have at least one stage".to_string()));
    let p = pipeline("p", vec![("a", stage(None, vec![]))]);
    assert_eq!(validation(p.validate()), ("stages.a.stage.steps".to_string(), "stage must have at least one step".to_string()));
    let mut blank_image = stage(None, vec![ok.clone()]);
    blank_image.runs_on = " \t".to_string();
    let p = pipeline("p", vec![("a", blank_image)]);
    assert_eq!(validation(p.validate()), ("stages.a.stage.runs-on".to_string(), "'runs-on' image cannot be empty".to_string()));
    let p = pipeline("p", vec![("a", stage(None, vec![step("  ", "echo")]))]);
    assert_eq!(validation(p.validate()), ("stages.a.step.name".to_string(), "step name cannot be empty".to_string()));
    let p = pipeline("p", vec![("a", stage(None, vec![step("n", "\n")]))]);
    assert_eq!(validation(p.validate()), ("stages.a.step.run".to_string(), "step must have a 'run' command".to_string()));
    let p = pipeline("p", vec![("a", stage(Some(&["zz"]), vec![ok.clone()]))]);
    assert_eq!(validation(p.validate()), ("stages.a.needs".to_string(), "unknown dependency 'zz'".to_string()));
    let p = pipeline("p", vec![("a", stage(None, vec![ok.clone()])), ("b", stage(Some(&["a"]), vec![ok]))]);
    assert!(p.validate().is_ok());
}

#[test]
fn step_and_stage_validate_alone() {
    assert!(step("n", "r").validate().is_ok());
    assert_eq!(validation(step("n", "").validate()).0, "step.run");
    assert_eq!(validation(stage(None, vec![]).validate()).0, "stage.steps");
}

#[test]
fn waves_of_a_diamond() {
    let ok = || vec![step("s", "echo")];
    let p = pipeline(
        "d",
        vec![
            ("top", stage(None, ok())),
            ("left", stage(Some(&["top"]), ok())),
            ("right", stage(Some(&["top"]), ok())),
            ("bottom", stage(Some(&["left", "right"]), ok())),
            ("alone", stage(None, ok())),
        ],
    );
    let waves = build_execution_waves(&p).unwrap();
    assert_eq!(waves, vec![vec!["top".to_string(), "alone".to_string()], vec!["left".to_string(), "right".to_string()], vec!["bottom".to_string()]]);
}

#[test]
fn waves_of_no_stages_is_one_empty_wave() {
    let p = pipeline("e", vec![]);
    assert_eq!(build_execution_waves(&p).unwrap(), vec![Vec::<String>::new()]);
}

#[test]
fn waves_unknown_dependency_message() {
    let p = pipeline("u", vec![("a", stage(None, vec![])), ("b", stage(Some(&["a", "ghost"]), vec![]))]);
    assert_eq!(build_execution_waves(&p).unwrap_err(), "Stage 'b' depends on unknown stage 'ghost'");
}

#[test]
fn waves_cycle_message_names_a_stage_on_the_cycle() {
    let p = pipeline("c", vec![("a", stage(Some(&["b"]), vec![])), ("b", stage(Some(&["a"]), vec![])), ("c", stage(None, vec![]))]);
    let e = build_execution_waves(&p).unwrap_err();
    assert!(e == "Circular dependency detected at stage 'a'" || e == "Circular dependency detected at stage 'b'", "{}", e);
}

#[test]
fn waves_self_loop_is_a_cycle() {
    let p = pipeline("s", vec![("a", stage(Some(&["a"]), vec![]))]);
    assert_eq!(build_execution_waves(&p).unwrap_err(), "Circular dependency detected at stage 'a'");
}

#[test]
fn waves_from_a_given_order() {
    let p = pipeline("o", vec![("x", stage(Some(&["y"]), vec![])), ("y", stage(None, vec![]))]);
    assert_eq!(waves_from_toposort(&p, Ok(vec![1, 0])).unwrap(), vec![vec!["y".to_string()], vec!["x".to_string()]]);
    assert_eq!(waves_from_toposort(&p, Err(1)).unwrap_err(), "Circular dependency detected at stage 'y'");
}

#[test]
fn typestate_keeps_pipeline_and_waves() {
    let p = pipeline("t", vec![("a", stage(None, vec![])), ("b", stage(Some(&["a"]), vec![]))]);
    let typed = TypedPipeline::new(p);
    assert!(typed.order().is_empty());
    let scheduled = typed.schedule().unwrap();
    assert_eq!(scheduled.order().len(), 2);
    let running = scheduled.start();
    assert_eq!(running.inner().name, "t");
    assert_eq!(running.order()[1], vec!["b".to_string()]);
    let sched = Scheduler::new(running.order().clone(), ShellExecutor);
    assert_eq!(sched.wave_count(), 2);
}

#[test]
fn typestate_schedule_refuses_cycles() {
    let p = pipeline("t", vec![("a", stage(Some(&["a"]), vec![]))]);
    assert!(TypedPipeline::new(p).schedule().is_err());
}

#[test]
fn status_labels() {
    assert_eq!(StageStatus::Pending.label(), "PENDING");
    assert_eq!(StageStatus::Running.label(), "RUNNING");
    assert_eq!(StageStatus::Passed.label(), "PASSED");
    assert_eq!(StageStatus::Failed.label(), "FAILED");
    assert_eq!(StageStatus::Skipped.label(), "SKIPPED");
    let _ = RetryConfig { attempts: 3, backoff: Some("exponential".to_string()) };
}

#[test]
fn dsl_identifiers_take_unicode_letters_and_digits() {
    let src = "pipeline café-ü_1.0:x\n\nstage étape2\n  runs-on rust:latest\n  step \"s\"\n    run echo hi\n  end\nend\n";
    let p = parse_dsl(src).unwrap();
    assert_eq!(p.name, "café-ü_1.0:x");
    assert_eq!(p.stages.len(), 1);
    assert!(p.stages.contains_key("étape2"));
}

#[test]
fn dsl_identifier_stops_at_other_characters() {
    // The pipeline name is the rest of its line; a stage name is an identifier,
    // so a stage named with `@` does not parse and the stages end there.
    let src = "pipeline my@pipe\nstage a@b\n  runs-on r\nend\n";
    let p = parse_dsl(src).unwrap();
    assert_eq!(p.name, "my@pipe");
    assert_eq!(p.stages.len(), 0);
}
