use rustpipe::agent::registry::RunnerRegistry;
use rustpipe::cache::hex_lower;
use rustpipe::cli::truncate;
use rustpipe::db::{Pending, RunId};
use rustpipe::notify::{discord_color, discord_title, duration_text, short_commit, slack_text, RunSummary};
use rustpipe::server::api::RunRecord;
use rustpipe::server::dashboard::{find_run, ws_log_text, ws_next, ws_stream_done, LOG_LINES};
use rustpipe::server::github::{commit_status_uri, GitOpsLoop};
use rustpipe::server::rbac::{auth_user_from_headers, role_allows};
use rustpipe::server::ratelimit::rate_limit_step;
use rustpipe::server::webhook::{
    handle_push, hmac_sha256, parse_push_event, verify_github_signature,
    PushPayload, WebhookConfig, WebhookOutcome,
};

// ---- RBAC ----

#[test]
fn roles_are_ordered() {
    assert!(role_allows("admin", "operator"));
    assert!(role_allows("admin", "viewer"));
    assert!(role_allows("operator", "operator"));
    assert!(role_allows("operator", "viewer"));
    assert!(!role_allows("viewer", "operator"));
    assert!(!role_allows("operator", "admin"));
    assert!(!role_allows("guest", "viewer"));
    assert!(role_allows("guest", "nobody"));
    assert!(!role_allows("Admin", "viewer"));
}

#[test]
fn auth_user_defaults() {
    let u = auth_user_from_headers(None, None);
    assert_eq!(u.role, "viewer");
    assert_eq!(u.name, "anonymous");
    let u = auth_user_from_headers(Some("admin"), Some("ada"));
    assert_eq!(u.role, "admin");
    assert_eq!(u.name, "ada");
}

// ---- HMAC and signatures ----

#[test]
fn hmac_rfc4231_short_key() {
    let mac = hmac_sha256(b"Jefe", b"what do ya want for nothing?");
    assert_eq!(
        hex_lower(&mac),
        "5bdcc146bf60754e6a042426089575c75a003f089d2739839dec58b964ec3843"
    );
}

#[test]
fn hmac_rfc4231_key_longer_than_a_block() {
    let key = vec![0xaau8; 131];
    let mac = hmac_sha256(&key, b"Test Using Larger Than Block-Size Key - Hash Key First");
    assert_eq!(
        hex_lower(&mac),
        "60e431591ee0b67f0d8a26aacbf5b77f8e0bc6213728c5140546040f0ee37f54"
    );
}

#[test]
fn hmac_rfc4231_twenty_byte_key() {
    let key = vec![0x0bu8; 20];
    let mac = hmac_sha256(&key, b"Hi There");
    assert_eq!(
        hex_lower(&mac),
        "b0344c61d8db38535ca8afceaf0bf12b881dc200c9833da726e9376c2e32cff7"
    );
}

#[test]
fn github_signature_check() {
    let sig = "sha256=5bdcc146bf60754e6a042426089575c75a003f089d2739839dec58b964ec3843";
    assert!(verify_github_signature("Jefe", b"what do ya want for nothing?", sig));
    assert!(!verify_github_signature("Jefe", b"what do ya want for nothing!", sig));
    assert!(!verify_github_signature("jefe", b"what do ya want for nothing?", sig));
    assert!(!verify_github_signature("Jefe", b"what do ya want for nothing?", &sig[7..]));
    assert!(!verify_github_signature("Jefe", b"what do ya want for nothing?", ""));
}

fn sign(secret: &str, body: &[u8]) -> String {
    format!("sha256={}", hex_lower(&hmac_sha256(secret.as_bytes(), body)))
}

// ---- push webhook ----

fn payload(git_ref: Option<&str>, after: Option<&str>, repo: Option<&str>) -> PushPayload {
    PushPayload {
        git_ref: git_ref.map(|s| s.to_string()),
        after: after.map(|s| s.to_string()),
        repo_full_name: repo.map(|s| s.to_string()),
    }
}

#[test]
fn push_event_fields() {
    let p = payload(Some("refs/heads/main"), Some("abc123"), Some("o/r"));
    assert_eq!(
        parse_push_event(&p),
        ("main".to_string(), "abc123".to_string(), "o/r".to_string())
    );
    let p = payload(None, None, None);
    assert_eq!(
        parse_push_event(&p),
        ("unknown".to_string(), "unknown".to_string(), "unknown".to_string())
    );
    let p = payload(Some("refs/tags/v1"), None, None);
    assert_eq!(parse_push_event(&p).0, "refs/tags/v1");
}

#[test]
fn push_with_bad_signature_is_refused() {
    let cfg = WebhookConfig { secret: "s3cret", branch_filter: None };
    let body = br#"{"ref":"refs/heads/main"}"#;
    let p = payload(Some("refs/heads/main"), None, None);
    let mut runs = Vec::new();
    let out = handle_push(&cfg, body, "sha256=00", Some(&p), &mut runs);
    assert!(matches!(out, WebhookOutcome::InvalidSignature));
    assert!(runs.is_empty());
}

#[test]
fn push_with_bad_json_is_refused() {
    let cfg = WebhookConfig { secret: "s3cret", branch_filter: None };
    let body = b"not json";
    let mut runs = Vec::new();
    let out = handle_push(&cfg, body, &sign("s3cret", body), None, &mut runs);
    assert!(matches!(out, WebhookOutcome::BadJson));
    assert!(runs.is_empty());
}

#[test]
fn push_on_other_branch_is_ignored() {
    let cfg = WebhookConfig { secret: "s3cret", branch_filter: Some("main") };
    let body = br#"{"ref":"refs/heads/dev"}"#;
    let p = payload(Some("refs/heads/dev"), Some("c1"), Some("o/r"));
    let mut runs = Vec::new();
    let out = handle_push(&cfg, body, &sign("s3cret", body), Some(&p), &mut runs);
    assert!(matches!(out, WebhookOutcome::Ignored));
    assert!(runs.is_empty());
    assert!(cfg.matches_branch("main"));
    assert!(!cfg.matches_branch("dev"));
}

#[test]
fn pushes_record_runs_with_sequential_ids() {
    let cfg = WebhookConfig { secret: "s3cret", branch_filter: Some("main") };
    let body = br#"{"ref":"refs/heads/main"}"#;
    let p = payload(Some("refs/heads/main"), Some("c1"), Some("o/r"));
    let mut runs = Vec::new();
    for expected in 1..=3u64 {
        match handle_push(&cfg, body, &sign("s3cret", body), Some(&p), &mut runs) {
            WebhookOutcome::Triggered { run_id, branch, commit } => {
                assert_eq!(run_id, expected);
                assert_eq!(branch, "main");
                assert_eq!(commit, "c1");
            }
            other => panic!("unexpected outcome {:?}", other),
        }
    }
    assert_eq!(runs.len(), 3);
    assert_eq!(runs.iter().map(|r| r.id).collect::<Vec<_>>(), vec![1, 2, 3]);
    assert_eq!(runs[2].pipeline, "o/r");
    assert_eq!(runs[2].status, "triggered");
}

#[test]
fn rate_limit_lets_a_hundred_through_per_second() {
    let mut w: Vec<u64> = Vec::new();
    let passed: Vec<bool> = (0..150u64).map(|i| rate_limit_step(&mut w, 1000 + i)).collect();
    assert!(passed[..100].iter().all(|p| *p));
    assert!(passed[100..].iter().all(|p| !*p));
    assert_eq!(w.len(), 100);
    // One second after the first pass, the window still holds 100 requests.
    assert!(!rate_limit_step(&mut w, 1999));
    // Later the oldest fall out: 49 remain (1051..=1099), so this one passes.
    assert!(rate_limit_step(&mut w, 2050));
    assert_eq!(w.len(), 50);
}

#[test]
fn rate_limit_never_passes_more_than_a_hundred_in_a_second() {
    let mut w: Vec<u64> = Vec::new();
    let times: Vec<u64> = (0..1000u64).map(|i| i * 7).collect();
    let passed: Vec<u64> =
        times.iter().copied().filter(|t| rate_limit_step(&mut w, *t)).collect();
    for x in 0..7000u64 {
        let n = passed.iter().filter(|t| x <= **t && **t < x + 1000).count();
        assert!(n <= 100);
    }
}

// ---- commit statuses ----

#[test]
fn commit_status_messages() {
    assert_eq!(
        commit_status_uri("octo/repo", "abc"),
        "https://api.github.com/repos/octo/repo/statuses/abc"
    );
    let l = GitOpsLoop::new("tok", "octo/repo", "abc", 8443);
    assert_eq!(l.dashboard_url, "https://localhost:8443/dashboard");
    let s = l.start();
    assert_eq!((s.state.as_str(), s.description.as_str()), ("pending", "RustPipe: pipeline started"));
    let s = l.stage_done("lint", true);
    assert_eq!((s.state.as_str(), s.description.as_str()), ("success", "RustPipe: stage 'lint' passed"));
    let s = l.stage_done("test", false);
    assert_eq!((s.state.as_str(), s.description.as_str()), ("failure", "RustPipe: stage 'test' failed"));
    let s = l.finish(false);
    assert_eq!(s.state, "failure");
    assert_eq!(s.description, "RustPipe: pipeline failure — https://localhost:8443/dashboard");
    let s = l.finish(true);
    assert_eq!(s.description, "RustPipe: pipeline success — https://localhost:8443/dashboard");
}

// ---- dashboard ----

fn record(id: u64) -> RunRecord {
    RunRecord {
        id,
        pipeline: "p".to_string(),
        branch: "main".to_string(),
        commit: "c".to_string(),
        status: "triggered".to_string(),
    }
}

#[test]
fn dashboard_lookup_and_log_lines() {
    let runs = vec![record(4), record(7), record(7)];
    assert_eq!(find_run(&runs, 7), Some(1));
    assert_eq!(find_run(&runs, 9), None);
    assert_eq!(ws_log_text(7, 3), "[run 7] step output line 3");
    assert!(!ws_stream_done(LOG_LINES - 1));
    assert!(ws_stream_done(LOG_LINES));
}

// ---- notifications ----

#[test]
fn slack_message_text() {
    let s = RunSummary {
        pipeline: "ci",
        branch: "main",
        commit: "0123456789abcdef",
        status: "passed",
        duration_secs: 42,
        failed_stage: None,
    };
    assert_eq!(slack_text(&s), "✅ *ci* — `passed` on `main` @ `01234567` (42s)");
    let f = RunSummary { status: "failed", failed_stage: Some("test"), commit: "abc", ..s };
    assert_eq!(slack_text(&f), "❌ *ci* — `failed` on `main` @ `abc` (42s) — failed at `test`");
}

#[test]
fn discord_embed_parts() {
    let s = RunSummary {
        pipeline: "ci",
        branch: "main",
        commit: "0123456789",
        status: "passed",
        duration_secs: 0,
        failed_stage: None,
    };
    assert_eq!(discord_title(&s), "ci — PASSED");
    assert_eq!(discord_color("passed"), 0x3fb950);
    assert_eq!(discord_color("failed"), 0xf85149);
    assert_eq!(short_commit("0123456789"), "01234567");
    assert_eq!(short_commit("abc"), "abc");
    assert_eq!(duration_text(0), "0s");
    assert_eq!(duration_text(3600), "3600s");
}

// ---- CLI ----

#[test]
fn truncate_for_columns() {
    assert_eq!(truncate("hello", 10), "hello");
    assert_eq!(truncate("hello", 5), "hello");
    assert_eq!(truncate("hello world", 5), "hell…");
    assert_eq!(truncate("héllo", 4), "hé…");
}

// ---- runner registry ----

#[test]
fn registry_dispatch_by_label() {
    let mut reg: RunnerRegistry<u32> = RunnerRegistry::new();
    assert_eq!(reg.count(), 0);
    assert!(reg.dispatch(None).is_none());
    reg.register("a".to_string(), vec!["linux".to_string()], 1);
    reg.register("b".to_string(), vec!["gpu".to_string(), "linux".to_string()], 2);
    assert_eq!(reg.count(), 2);
    assert_eq!(reg.dispatch(Some("gpu")).map(|r| r.job_tx), Some(2));
    assert_eq!(reg.dispatch(Some("linux")).map(|r| r.job_tx), Some(2));
    assert_eq!(reg.dispatch(Some("linux")).map(|r| r.job_tx), Some(1));
    assert_eq!(reg.dispatch(None).map(|r| r.agent_id.clone()), Some("b".to_string()));
    assert!(reg.dispatch(Some("arm")).is_none());
    reg.register("a".to_string(), vec!["arm".to_string()], 3);
    assert_eq!(reg.count(), 2);
    assert_eq!(reg.dispatch(Some("arm")).map(|r| r.job_tx), Some(3));
    reg.deregister("a");
    assert_eq!(reg.count(), 1);
    reg.deregister("zzz");
    assert_eq!(reg.count(), 1);
}

#[test]
fn registry_round_robin_over_qualifying_runners() {
    let mut reg: RunnerRegistry<u32> = RunnerRegistry::new();
    reg.register("a".to_string(), vec!["x".to_string()], 0);
    reg.register("b".to_string(), vec!["y".to_string()], 1);
    reg.register("c".to_string(), vec!["x".to_string()], 2);
    reg.register("d".to_string(), vec!["x".to_string(), "y".to_string()], 3);
    let picks: Vec<u32> = (0..7).map(|_| reg.dispatch(Some("x")).map(|r| r.job_tx).unwrap()).collect();
    assert_eq!(picks, vec![0, 2, 3, 0, 2, 3, 0]);
    let all: Vec<u32> = (0..4).map(|_| reg.dispatch(None).map(|r| r.job_tx).unwrap()).collect();
    // The turn carries over: it stood at 1 of 3, now at 1 of 4.
    assert_eq!(all, vec![1, 2, 3, 0]);
}

// ---- typed run ids ----

#[test]
fn run_id_keeps_its_value() {
    let id: RunId<Pending> = RunId::new(17);
    assert_eq!(id.value(), 17);
    assert_eq!(id.complete().value(), 17);
}

#[test]
fn log_stream_sends_twenty_lines_then_ends() {
    let mut line = 0u32;
    let mut texts = Vec::new();
    loop {
        let (next, text, done) = ws_next(5, line);
        assert_eq!(next, line + 1);
        line = next;
        texts.push(text);
        if done {
            break;
        }
    }
    assert_eq!(texts.len(), 20);
    assert_eq!(texts[0], "[run 5] step output line 1");
    assert_eq!(texts[19], "[run 5] step output line 20");
}

#[test]
fn round_robin_shares_over_many_jobs() {
    let mut reg: RunnerRegistry<u32> = RunnerRegistry::new();
    for (id, tx) in [("a", 0u32), ("b", 1), ("c", 2)] {
        reg.register(id.to_string(), vec!["x".to_string()], tx);
    }
    let mut counts = [0usize; 3];
    for _ in 0..10 {
        counts[reg.dispatch(Some("x")).unwrap().job_tx as usize] += 1;
    }
    assert_eq!(counts, [4, 3, 3]);
}
