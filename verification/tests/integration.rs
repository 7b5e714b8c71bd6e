//! Integration tests for the pipeline engine.
use rustpipe::pipeline::dag::build_execution_waves;
use rustpipe::pipeline::dsl::parse_dsl;
use rustpipe::pipeline::model::{Pipeline, Stage, Step};
use rustpipe::pipeline::validator::Validator;
use rustpipe::runner::matrix::expand;
use rustpipe::secrets;
use rustpipe::strmap::StrMap;
use rustpipe::cache;

// ── helpers ──────────────────────────────────────────────────────────────────

fn step(name: &str, run: &str) -> Step {
    Step { name: name.to_string(), run: run.to_string(), artifact: None, retry: None }
}

fn stage(runs_on: &str, needs: Option<&[&str]>, steps: Vec<Step>) -> Stage {
    Stage {
        runs_on: runs_on.to_string(),
        steps,
        needs: needs.map(|n| n.iter().map(|s| s.to_string()).collect()),
        when: None,
        timeout_secs: None,
        matrix: None,
        fail_fast: false,
    }
}

fn pipeline(name: &str, stages: Vec<(&str, Stage)>) -> Pipeline {
    let mut map = StrMap::new();
    for (k, v) in stages {
        map.insert(k.to_string(), v);
    }
    Pipeline { name: name.to_string(), trigger: None, stages: map, secrets: None, notify: None }
}

/// The pipeline of the YAML sample: lint, then test, then build.
fn sample_pipeline() -> Pipeline {
    pipeline(
        "test-pipeline",
        vec![
            ("lint", stage("rust:latest", None, vec![step("Check format", "echo \"lint ok\"")])),
            ("test", stage("rust:latest", Some(&["lint"]), vec![step("Run tests", "echo \"tests ok\"")])),
            ("build", stage("rust:latest", Some(&["test"]), vec![step("Build", "echo \"build ok\"")])),
        ],
    )
}

fn sample_dsl() -> &'static str {
    r#"pipeline my-dsl-pipeline

stage lint
  runs-on rust:latest
  step "Run clippy"
    run cargo clippy
  end
end

stage test
  runs-on rust:latest
  needs lint
  step "Run tests"
    run cargo test
  end
end
"#
}

// ── DSL parsing ───────────────────────────────────────────────────────────────

#[test]
fn test_dsl_parse_pipeline_name() {
    let p = parse_dsl(sample_dsl()).unwrap();
    assert_eq!(p.name, "my-dsl-pipeline");
}

#[test]
fn test_dsl_parse_stage_count() {
    let p = parse_dsl(sample_dsl()).unwrap();
    assert_eq!(p.stages.len(), 2);
}

#[test]
fn test_dsl_parse_needs() {
    let p = parse_dsl(sample_dsl()).unwrap();
    let test_stage = p.stages.get("test").unwrap();
    assert_eq!(test_stage.needs.as_deref().unwrap(), &["lint"]);
}

// ── Validation ────────────────────────────────────────────────────────────────

#[test]
fn test_valid_pipeline_passes() {
    let p = sample_pipeline();
    assert!(p.validate().is_ok());
}

#[test]
fn test_empty_pipeline_name_fails() {
    let p = pipeline("", vec![("lint", stage("rust:latest", None, vec![step("step", "echo hi")]))]);
    assert!(p.validate().is_err());
}

#[test]
fn test_unknown_dependency_fails() {
    let p = pipeline(
        "bad-pipeline",
        vec![("test", stage("rust:latest", Some(&["nonexistent"]), vec![step("step", "echo hi")]))],
    );
    assert!(p.validate().is_err());
}

// ── DAG wave scheduling ───────────────────────────────────────────────────────

#[test]
fn test_dag_wave_count() {
    let p = sample_pipeline();
    let waves = build_execution_waves(&p).unwrap();
    // lint(wave 0) → test(wave 1) → build(wave 2)
    assert_eq!(waves.len(), 3);
}

#[test]
fn test_dag_lint_in_first_wave() {
    let p = sample_pipeline();
    let waves = build_execution_waves(&p).unwrap();
    assert!(waves[0].contains(&"lint".to_string()));
}

#[test]
fn test_dag_cycle_detection() {
    let p = pipeline(
        "cyclic",
        vec![
            ("a", stage("ubuntu", Some(&["b"]), vec![])),
            ("b", stage("ubuntu", Some(&["a"]), vec![])),
        ],
    );
    assert!(build_execution_waves(&p).is_err());
}

// ── Matrix expand ─────────────────────────────────────────────────────────────

#[test]
fn test_matrix_expand_count() {
    let mut m = StrMap::new();
    m.insert("rust".to_string(), vec!["stable".to_string(), "beta".to_string()]);
    m.insert("os".to_string(), vec!["linux".to_string(), "macos".to_string()]);
    let combos = expand(&m);
    assert_eq!(combos.len(), 4);
}

#[test]
fn test_matrix_expand_single_axis() {
    let mut m = StrMap::new();
    m.insert("rust".to_string(), vec!["stable".to_string(), "beta".to_string(), "nightly".to_string()]);
    let combos = expand(&m);
    assert_eq!(combos.len(), 3);
}

#[test]
fn test_matrix_expand_contains_keys() {
    let mut m = StrMap::new();
    m.insert("os".to_string(), vec!["linux".to_string()]);
    let combos = expand(&m);
    assert!(combos[0].contains_key("os"));
    assert_eq!(combos[0].get("os").unwrap(), "linux");
}

// ── Secrets ───────────────────────────────────────────────────────────────────

#[test]
fn test_secret_mask_replaces_value() {
    let mut secrets_map = StrMap::new();
    secrets_map.insert("token".to_string(), "supersecret".to_string());
    let masked = secrets::mask("echo supersecret", &secrets_map);
    assert_eq!(masked, "echo ***");
}

#[test]
fn test_secret_mask_empty_value_skipped() {
    let mut secrets_map = StrMap::new();
    secrets_map.insert("empty".to_string(), "".to_string());
    let masked = secrets::mask("echo hello", &secrets_map);
    assert_eq!(masked, "echo hello");
}

#[test]
fn test_hardcoded_secret_detection() {
    let mut secrets_map = StrMap::new();
    secrets_map.insert("token".to_string(), "ghp_abc123".to_string());
    let hits = secrets::check_hardcoded("curl -H 'Authorization: ghp_abc123'", &secrets_map);
    assert!(hits.contains(&"token".to_string()));
}

#[test]
fn test_no_hardcoded_secret_clean() {
    let mut secrets_map = StrMap::new();
    secrets_map.insert("token".to_string(), "ghp_abc123".to_string());
    let hits = secrets::check_hardcoded("curl -H 'Authorization: $SECRET_TOKEN'", &secrets_map);
    assert!(hits.is_empty());
}

// ── Cache ─────────────────────────────────────────────────────────────────────

#[test]
fn test_cache_hash_deterministic() {
    let h1 = cache::stage_hash("lint", &["cargo clippy"], &[]);
    let h2 = cache::stage_hash("lint", &["cargo clippy"], &[]);
    assert_eq!(h1, h2);
}

#[test]
fn test_cache_hash_differs_on_cmd_change() {
    let h1 = cache::stage_hash("lint", &["cargo clippy"], &[]);
    let h2 = cache::stage_hash("lint", &["cargo fmt"], &[]);
    assert_ne!(h1, h2);
}
