use rustpipe::cache::{content_hash, hex_lower, stage_cache_key, stage_hash};
use rustpipe::pipeline::model::{RetryConfig, Stage, StageStatus, Step};
use rustpipe::runner::container::{
    combined_command, container_name, exit_status, hex_u32, stage_timeout_secs, uuid_short,
    workspace_bind,
};
use rustpipe::runner::matrix::{combo_label, env_prefix, expand, matrix_outcome, with_env_prefix};
use rustpipe::runner::shell::{
    eval_when, runnable_steps, stage_outcome, stage_runs, step_attempts, RetryAction, StepRetry,
    FIRST_DELAY_MS,
};
use rustpipe::secrets::{check_hardcoded, env_pairs, mask, secrets_from_vars};
use rustpipe::strmap::StrMap;

fn step(name: &str, run: &str) -> Step {
    Step { name: name.to_string(), run: run.to_string(), artifact: None, retry: None }
}

fn stage(steps: Vec<Step>) -> Stage {
    Stage {
        runs_on: "rust:latest".to_string(),
        steps,
        needs: None,
        when: None,
        timeout_secs: None,
        matrix: None,
        fail_fast: false,
    }
}

fn secrets(pairs: &[(&str, &str)]) -> StrMap<String> {
    let mut m = StrMap::new();
    for (k, v) in pairs {
        m.insert(k.to_string(), v.to_string());
    }
    m
}

fn strings(v: &[&str]) -> Vec<String> {
    v.iter().map(|s| s.to_string()).collect()
}

// ---- secrets ----

#[test]
fn mask_replaces_every_occurrence() {
    let s = secrets(&[("token", "abc")]);
    assert_eq!(mask("abc-abc-xabcx", &s), "***-***-x***x");
}

#[test]
fn mask_applies_secrets_in_order() {
    // The shorter secret is masked first, so the longer one no longer occurs.
    let s = secrets(&[("a", "abc"), ("b", "abcdef")]);
    assert_eq!(mask("abcdef", &s), "***def");
    let s = secrets(&[("b", "abcdef"), ("a", "abc")]);
    assert_eq!(mask("abcdef abc", &s), "*** ***");
}

#[test]
fn mask_without_secrets_keeps_text() {
    let s = StrMap::new();
    assert_eq!(mask("echo hi", &s), "echo hi");
}

#[test]
fn hardcoded_lists_names_in_order_and_skips_empty_values() {
    let s = secrets(&[("first", "aaa"), ("empty", ""), ("second", "bbb"), ("third", "zzz")]);
    assert_eq!(check_hardcoded("echo bbb aaa", &s), strings(&["first", "second"]));
}

#[test]
fn env_pairs_upper_case_names() {
    let s = secrets(&[("token", "x1"), ("Db_Pass", "x2")]);
    let pairs = env_pairs(&s);
    assert_eq!(
        pairs,
        vec![
            ("SECRET_TOKEN".to_string(), "x1".to_string()),
            ("SECRET_DB_PASS".to_string(), "x2".to_string()),
        ]
    );
}

#[test]
fn secrets_from_prefixed_variables() {
    let vars = vec![
        ("RUSTPIPE_SECRET_TOKEN".to_string(), "v1".to_string()),
        ("PATH".to_string(), "/bin".to_string()),
        ("RUSTPIPE_SECRET_DB".to_string(), "pw".to_string()),
        ("RUSTPIPE_SECRET_Token".to_string(), "v2".to_string()),
        ("XRUSTPIPE_SECRET_A".to_string(), "no".to_string()),
    ];
    let s = secrets_from_vars(&vars);
    assert_eq!(s.len(), 2);
    assert_eq!(s.get("token"), Some(&"v2".to_string()));
    assert_eq!(s.get("db"), Some(&"pw".to_string()));
    assert_eq!(s.key_at(0).as_str(), "token");
    assert_eq!(s.get("path"), None);
}

#[test]
fn secrets_prefix_repeated_is_stripped_repeatedly() {
    let vars = vec![("RUSTPIPE_SECRET_RUSTPIPE_SECRET_X".to_string(), "v".to_string())];
    let s = secrets_from_vars(&vars);
    assert_eq!(s.get("x"), Some(&"v".to_string()));
}

// ---- matrix ----

fn matrix(axes: &[(&str, &[&str])]) -> StrMap<Vec<String>> {
    let mut m = StrMap::new();
    for (k, vs) in axes {
        m.insert(k.to_string(), strings(vs));
    }
    m
}

#[test]
fn matrix_three_by_two_gives_six_jobs() {
    let m = matrix(&[("rust", &["stable", "beta", "nightly"]), ("os", &["linux", "macos"])]);
    let combos = expand(&m);
    assert_eq!(combos.len(), 6);
    let labels: Vec<String> = combos.iter().map(combo_label).collect();
    assert_eq!(
        labels,
        strings(&[
            "rust=stable, os=linux",
            "rust=beta, os=linux",
            "rust=nightly, os=linux",
            "rust=stable, os=macos",
            "rust=beta, os=macos",
            "rust=nightly, os=macos",
        ])
    );
}

#[test]
fn matrix_without_axes_is_one_empty_job() {
    let m = StrMap::new();
    let combos = expand(&m);
    assert_eq!(combos.len(), 1);
    assert_eq!(combos[0].len(), 0);
    assert_eq!(combo_label(&combos[0]), "");
}

#[test]
fn matrix_axis_without_values_gives_no_jobs() {
    let m = matrix(&[("rust", &["stable"]), ("os", &[])]);
    assert_eq!(expand(&m).len(), 0);
}

#[test]
fn matrix_env_prefix_and_patched_steps() {
    let m = matrix(&[("rust", &["stable"]), ("os", &["linux"])]);
    let combos = expand(&m);
    let prefix = env_prefix(&combos[0]);
    assert_eq!(prefix, "RUST=stable OS=linux");
    let st = stage(vec![step("build", "cargo build"), step("test", "cargo test")]);
    let patched = with_env_prefix(st, &prefix);
    assert_eq!(patched.steps[0].run, "RUST=stable OS=linux cargo build");
    assert_eq!(patched.steps[1].run, "RUST=stable OS=linux cargo test");
    assert_eq!(patched.steps[1].name, "test");
    assert_eq!(patched.runs_on, "rust:latest");
}

#[test]
fn matrix_outcome_fails_on_any_failed_job() {
    assert_eq!(
        matrix_outcome(&vec![StageStatus::Passed, StageStatus::Failed, StageStatus::Passed]),
        StageStatus::Failed
    );
    assert_eq!(matrix_outcome(&vec![StageStatus::Passed, StageStatus::Skipped]), StageStatus::Passed);
    assert_eq!(matrix_outcome(&vec![]), StageStatus::Passed);
}

// ---- shell runner decisions ----

#[test]
fn when_conditions() {
    assert!(eval_when("branch == \"main\"", "main"));
    assert!(!eval_when("branch == \"main\"", "dev"));
    assert!(eval_when("branch != \"main\"", "dev"));
    assert!(!eval_when("branch != main", "main"));
    assert!(eval_when("branch ==   \"\"main\"\"  ", "main"));
    // Anything else allows the stage.
    assert!(eval_when("tag == v1", "main"));
    assert!(eval_when(" branch == main", "dev"));
}

#[test]
fn stage_runs_follows_its_condition() {
    let mut st = stage(vec![step("a", "true")]);
    assert!(stage_runs(&st, "dev"));
    st.when = Some("branch == \"main\"".to_string());
    assert!(!stage_runs(&st, "dev"));
    assert!(stage_runs(&st, "main"));
}

#[test]
fn blank_steps_do_not_run() {
    let st = stage(vec![step("a", "echo a"), step("b", "   "), step("c", ""), step("d", " ls ")]);
    assert_eq!(runnable_steps(&st), vec![0, 3]);
}

#[test]
fn attempts_default_to_one() {
    let mut s = step("a", "true");
    assert_eq!(step_attempts(&s), 1);
    s.retry = Some(RetryConfig { attempts: 3, backoff: None });
    assert_eq!(step_attempts(&s), 3);
}

#[test]
fn retry_doubles_the_delay_and_stops_at_the_last_try() {
    let r = StepRetry::new(3);
    assert_eq!(r.delay_ms, FIRST_DELAY_MS);
    assert!(r.should_try());
    let (r, a) = r.after_try(2);
    assert_eq!(a, RetryAction::RetryAfter { delay_ms: 500 });
    let (r, a) = r.after_try(2);
    assert_eq!(a, RetryAction::RetryAfter { delay_ms: 1000 });
    assert_eq!(r.delay_ms, 2000);
    let (r, a) = r.after_try(7);
    assert_eq!(a, RetryAction::Done { code: 7 });
    assert!(!r.should_try());
    assert_eq!(r.tries, 3);
}

#[test]
fn retry_success_ends_at_once() {
    let r = StepRetry::new(5);
    let (r, a) = r.after_try(1);
    assert_eq!(a, RetryAction::RetryAfter { delay_ms: 500 });
    let (r, a) = r.after_try(0);
    assert_eq!(a, RetryAction::Done { code: 0 });
    assert_eq!(r.tries, 2);
}

#[test]
fn retry_with_no_attempts_never_tries() {
    assert!(!StepRetry::new(0).should_try());
}

#[test]
fn stage_outcome_from_codes() {
    assert_eq!(stage_outcome(&vec![0, 0]), StageStatus::Passed);
    assert_eq!(stage_outcome(&vec![0, 3]), StageStatus::Failed);
    assert_eq!(stage_outcome(&vec![]), StageStatus::Passed);
}

// ---- container runner ----

#[test]
fn container_helpers() {
    let st = stage(vec![step("a", "cargo build"), step("b", "cargo test")]);
    assert_eq!(combined_command(&st), "cargo build && cargo test");
    assert_eq!(combined_command(&stage(vec![])), "");
    assert_eq!(container_name("build", "1a2b"), "rustpipe-build-1a2b");
    assert_eq!(workspace_bind("/home/ci"), "/home/ci:/workspace");
    assert_eq!(stage_timeout_secs(&st), 300);
    let mut st2 = st.clone();
    st2.timeout_secs = Some(42);
    assert_eq!(stage_timeout_secs(&st2), 42);
    assert_eq!(exit_status(Some(0)), StageStatus::Passed);
    assert_eq!(exit_status(Some(2)), StageStatus::Failed);
    assert_eq!(exit_status(None), StageStatus::Failed);
}

#[test]
fn hex_of_numbers() {
    assert_eq!(hex_u32(0), "0");
    assert_eq!(hex_u32(255), "ff");
    assert_eq!(hex_u32(999_999_999), format!("{:x}", 999_999_999u32));
    assert_eq!(hex_u32(u32::MAX), "ffffffff");
}

#[test]
fn uuid_short_is_lower_hex() {
    let u = uuid_short().unwrap();
    assert!(!u.is_empty() && u.len() <= 8);
    assert!(u.chars().all(|c| c.is_ascii_hexdigit() && !c.is_ascii_uppercase()));
    let n = u32::from_str_radix(&u, 16).unwrap();
    assert!(n < 1_000_000_000);
}

// ---- cache ----

#[test]
fn content_hash_known_values() {
    assert_eq!(
        content_hash(b"abc"),
        "ba7816bf8f01cfea414140de5dae2223b00361a396177a9cb410ff61f20015ad"
    );
    assert_eq!(
        content_hash(b""),
        "e3b0c44298fc1c149afbf4c8996fb92427ae41e4649b934ca495991b7852b855"
    );
    assert_eq!(hex_lower(&[0x00, 0x0f, 0xa0, 0xff]), "000fa0ff");
}

#[test]
fn stage_hash_is_hash_of_concatenation() {
    assert_eq!(
        stage_hash("lint", &["cargo clippy"], &[]),
        "554cffe931915e68711553b5149f789bb09a7a6b83e6ad370c54ce0b082c7f7c"
    );
    assert_eq!(stage_hash("lint", &["cargo clippy"], &[]), content_hash(b"lintcargo clippy"));
    assert_eq!(
        stage_hash("a", &["b", "c"], &[b"file1".to_vec(), b"file2".to_vec()]),
        content_hash(b"abcfile1file2")
    );
    assert_ne!(
        stage_hash("a", &["b"], &[b"one".to_vec()]),
        stage_hash("a", &["b"], &[b"two".to_vec()])
    );
}

#[test]
fn stage_cache_key_uses_all_commands() {
    let st = stage(vec![step("a", "cargo clippy")]);
    assert_eq!(stage_cache_key("lint", &st), stage_hash("lint", &["cargo clippy"], &[]));
}

// ---- the shell runner's stage state machine ----

use rustpipe::runner::shell::{StageAction, StageRun};

#[test]
fn stage_run_skips_on_false_condition() {
    let mut st = stage(vec![step("a", "true")]);
    st.when = Some("branch == \"main\"".to_string());
    let (_, a) = StageRun::start(&st, "dev", false);
    assert_eq!(a, StageAction::Finish { status: StageStatus::Skipped });
}

#[test]
fn stage_run_runs_non_blank_steps_in_order() {
    let st = stage(vec![step("a", "echo a"), step("b", "  "), step("c", "echo c")]);
    let (r, a) = StageRun::start(&st, "main", false);
    assert_eq!(a, StageAction::Run { step: 0 });
    let (r, a) = r.ran(0);
    assert_eq!(a, StageAction::StepOver { step: 0, code: 0 });
    let (r, a) = r.advance();
    assert_eq!(a, StageAction::Run { step: 2 });
    let (r, a) = r.ran(0);
    assert_eq!(a, StageAction::StepOver { step: 2, code: 0 });
    let (r, a) = r.advance();
    assert_eq!(a, StageAction::Finish { status: StageStatus::Passed });
    assert_eq!(r.codes, vec![0, 0]);
}

#[test]
fn stage_run_retries_then_fails_and_stops() {
    let mut s0 = step("flaky", "exit 1");
    s0.retry = Some(RetryConfig { attempts: 3, backoff: Some("exponential".to_string()) });
    let st = stage(vec![s0, step("never", "echo no")]);
    let (r, a) = StageRun::start(&st, "main", false);
    assert_eq!(a, StageAction::Run { step: 0 });
    let (r, a) = r.ran(1);
    assert_eq!(a, StageAction::RetryAfter { step: 0, delay_ms: 500 });
    let (r, a) = r.ran(1);
    assert_eq!(a, StageAction::RetryAfter { step: 0, delay_ms: 1000 });
    let (r, a) = r.ran(5);
    assert_eq!(a, StageAction::StepOver { step: 0, code: 5 });
    let (r, a) = r.advance();
    assert_eq!(a, StageAction::Finish { status: StageStatus::Failed });
    assert_eq!(r.codes, vec![5]);
}

#[test]
fn stage_run_retry_that_succeeds_passes() {
    let mut s0 = step("flaky", "maybe");
    s0.retry = Some(RetryConfig { attempts: 2, backoff: None });
    let st = stage(vec![s0]);
    let (r, _) = StageRun::start(&st, "main", false);
    let (r, a) = r.ran(1);
    assert_eq!(a, StageAction::RetryAfter { step: 0, delay_ms: 500 });
    let (r, a) = r.ran(0);
    assert_eq!(a, StageAction::StepOver { step: 0, code: 0 });
    let (_, a) = r.advance();
    assert_eq!(a, StageAction::Finish { status: StageStatus::Passed });
}

#[test]
fn stage_run_step_with_no_attempts_fails_untried() {
    let mut s0 = step("never", "echo");
    s0.retry = Some(RetryConfig { attempts: 0, backoff: None });
    let st = stage(vec![s0]);
    let (r, a) = StageRun::start(&st, "main", false);
    assert_eq!(a, StageAction::StepOver { step: 0, code: 1 });
    let (_, a) = r.advance();
    assert_eq!(a, StageAction::Finish { status: StageStatus::Failed });
}

#[test]
fn stage_run_without_steps_passes() {
    let (_, a) = StageRun::start(&stage(vec![step("blank", "")]), "main", false);
    assert_eq!(a, StageAction::Finish { status: StageStatus::Passed });
}

// ---- laws on concrete values ----

#[test]
fn masked_text_hides_every_secret() {
    let s = secrets(&[("a", "tok"), ("b", "pass"), ("c", "")]);
    let masked = mask("tok=tok;pass:passtok", &s);
    assert_eq!(masked, "***=***;***:******");
    assert!(!masked.contains("tok") && !masked.contains("pass"));
    assert!(check_hardcoded(&masked, &s).is_empty());
}

#[test]
fn mask_with_a_star_secret_can_leave_it() {
    let s = secrets(&[("x", "**")]);
    assert_eq!(mask("**", &s), "***");
    assert_eq!(check_hardcoded("***", &s), strings(&["x"]));
}

#[test]
fn strmap_reads_back_writes() {
    let mut m: StrMap<u32> = StrMap::new();
    m.insert("a".to_string(), 1);
    m.insert("b".to_string(), 2);
    assert_eq!(m.get("a"), Some(&1));
    m.insert("a".to_string(), 3);
    assert_eq!(m.len(), 2);
    assert_eq!(m.get("a"), Some(&3));
    assert_eq!(m.key_at(0).as_str(), "a");
    m.remove("a");
    assert_eq!(m.get("a"), None);
    assert_eq!(m.get("b"), Some(&2));
    assert!(!m.contains_key("a"));
    assert_eq!(m.find("b"), Some(0));
}

#[test]
fn stage_run_skips_a_cached_stage() {
    let st = stage(vec![step("a", "echo a")]);
    let (_, a) = StageRun::start(&st, "main", true);
    assert_eq!(a, StageAction::Finish { status: StageStatus::Skipped });
}

#[test]
fn masking_twice_masks_once() {
    let s = secrets(&[("a", "tok"), ("b", "pass")]);
    let once = mask("tok pass passtok", &s);
    assert_eq!(mask(&once, &s), once);
}
