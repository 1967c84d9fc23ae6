use repo_analyzer_core::app_support::{app_state, release_baseline_paths};
use repo_analyzer_core::ast_cache::AstCache;
use repo_analyzer_core::badger_sidecar::{sidecar_key, stable_shard};
use repo_analyzer_core::budget_guard::{BudgetDecision, BudgetGuard, StopReason};
use repo_analyzer_core::ci_gate::gate_comment;
use repo_analyzer_core::fix_proposal::{evaluate_fix_proposal, FixProposalContract, FixProposalSubmission};
use repo_analyzer_core::fix_review::{review_fix_attempt, VerifierInput};
use repo_analyzer_core::errors::AnalyzerError;
use repo_analyzer_core::git::{changed_files_in_diff, changed_files_since_tag};
use repo_analyzer_core::git_providers::{GitProviderKind, GitProviderSpec};
use repo_analyzer_core::import::first_occurrences;
use repo_analyzer_core::incident_feedback::RiskFeedbackStore;
use repo_analyzer_core::observability::JobMetrics;
use repo_analyzer_core::retention::RawRetentionDecision;
use repo_analyzer_core::risk_contract::{risk_tier, PrRiskDecision};
use repo_analyzer_core::roadmap_coherence::{validate_roadmap_coherence, RoadmapCoherenceInput};
use repo_analyzer_core::snapshots::AnalyticsSnapshotManager;
use repo_analyzer_core::storage::IngestionBackendKind;
use repo_analyzer_core::telemetry::import_summary;
use repo_analyzer_core::triage::{format_section, triage_report_body};

fn coherent_input() -> RoadmapCoherenceInput {
    RoadmapCoherenceInput {
        feature_list: "| BI-029 | Red->Green partial | In Progress |".to_string(),
        product_roadmap: "Stage 3 | Convergence".to_string(),
        bead_tracker: "| BI-029 | Red->Green partial | In Progress |".to_string(),
        test_plan: "T-046 roadmap coherence".to_string(),
    }
}

#[test]
fn roadmap_coherence_is_satisfied_when_documents_agree() {
    let report = validate_roadmap_coherence(&coherent_input());
    assert!(report.coherent);
    assert_eq!(report.phase_gates, vec!["Stage 3 convergence".to_string()]);
    assert_eq!(report.test_mappings, vec!["BI-029 -> T-046".to_string()]);
    assert_eq!(report.acceptance_criteria.len(), 3);
    assert!(report.dangling_tasks.is_empty());
    assert_eq!(report.summary, "roadmap coherence satisfied");
}

#[test]
fn roadmap_with_planned_row_is_dangling() {
    let mut input = coherent_input();
    input.feature_list.push_str("\n| BI-029 | Planned |");
    let report = validate_roadmap_coherence(&input);
    assert!(!report.coherent);
    assert_eq!(report.dangling_tasks, vec!["BI-029".to_string()]);
    assert_eq!(report.summary, "missing test mapping or phase gate coherence");
    input.test_plan = "nothing".to_string();
    assert!(validate_roadmap_coherence(&input).test_mappings.is_empty());
}

#[test]
fn triage_body_lists_sections_and_updates() {
    let high = vec![("Leak".to_string(), "token in log".to_string())];
    let body = triage_report_body(true, &high, &vec![], &vec![], &vec!["moved to stage 3".to_string()]);
    assert_eq!(
        body,
        "Report-only mode\n## High-Priority\n- Leak | token in log\n## Watch\nNone\n## Noise\nNone\n## State Updates\n- moved to stage 3\nNo architectural invention\n"
    );
    assert_eq!(format_section(&vec![]), "None\n");
}

#[test]
fn ci_gate_comment_for_blocked_pr() {
    let (tier, review) = risk_tier(PrRiskDecision::Block);
    assert_eq!((tier, review), ("high", "security-review"));
    let reasons = vec!["file_risk=0.90".to_string(), "velocity_penalty=0.10".to_string()];
    let c = gate_comment("risk-v1", "42", "core", PrRiskDecision::Block, tier, review, "0.75", &reasons);
    assert!(c.should_block_merge);
    assert_eq!(c.decision, "Block merge");
    assert_eq!(c.summary, "risk-v1 | block merge | security-review | 0.75");
    assert_eq!(
        c.body,
        "## PR Risk Gate\n- Schema: risk-v1\n- PR: core/42\n- Decision: Block merge\n- Tier: high\n- Review requirement: security-review\n- Risk score: 0.75\n- Reason codes:\n  - file_risk=0.90\n  - velocity_penalty=0.10"
    );
    let allow = gate_comment("risk-v1", "1", "r", PrRiskDecision::Allow, "low", "none", "0.10", &vec![]);
    assert!(!allow.should_block_merge);
    assert_eq!(allow.decision, "Allow merge");
}

#[test]
fn fix_proposal_escalates_at_retry_cap() {
    let contract = FixProposalContract::default();
    let submission = FixProposalSubmission {
        proposal_id: "p1".to_string(),
        issue_ids: vec!["i1".to_string(), "i2".to_string()],
        remediation: "patch".to_string(),
        retry_count: 2,
        context: vec!["log".to_string()],
    };
    let e = evaluate_fix_proposal(&submission, &contract);
    assert_eq!(e.schema_version, "fix-proposal-v1");
    assert!(!e.one_problem);
    assert!(e.retry_cap_reached && e.full_context_required);
    assert_eq!(e.escalation_context, vec!["log".to_string()]);
    assert_eq!(
        e.reason_codes,
        vec![
            "issue_count=2".to_string(),
            "retry_count=2".to_string(),
            "retry_cap=2".to_string(),
            "one_problem_required".to_string(),
            "retry_cap_reached".to_string(),
            "full_context_required".to_string(),
        ]
    );
}

#[test]
fn fix_review_verdicts() {
    let approve = review_fix_attempt(VerifierInput {
        issues: vec!["i".to_string()],
        test_evidence: vec!["t1".to_string(), "t2".to_string()],
        attempts: 0,
        attempt_cap: 3,
    });
    assert!(approve.can_approve);
    assert_eq!(approve.reason, "one-problem diff approved with test evidence: t1, t2");
    let escalate = review_fix_attempt(VerifierInput { issues: vec![], test_evidence: vec![], attempts: 3, attempt_cap: 3 });
    assert_eq!(escalate.decision, "escalate");
    let no_tests = review_fix_attempt(VerifierInput { issues: vec!["i".to_string()], test_evidence: vec![], attempts: 0, attempt_cap: 1 });
    assert_eq!(no_tests.reason, "test evidence required to approve");
}

#[test]
fn budget_guard_thresholds() {
    let g = BudgetGuard;
    assert_eq!(g.evaluate(79, false), BudgetDecision::Continue);
    assert_eq!(g.evaluate(80, false), BudgetDecision::ReportOnly);
    assert_eq!(g.evaluate(100, false), BudgetDecision::Stop(StopReason::BudgetExceeded));
    assert_eq!(g.evaluate(10, true), BudgetDecision::Stop(StopReason::Paused));
}

#[test]
fn retention_decision_prunes_after_ttl() {
    let d = RawRetentionDecision::new(10);
    assert!(!d.should_prune(0, 10));
    assert!(d.should_prune(0, 11));
}

#[test]
fn git_provider_urls() {
    let gl = GitProviderSpec {
        kind: GitProviderKind::GitLab,
        host: "https://gitlab.corp//".to_string(),
        namespace: "team".to_string(),
        repository: "core".to_string(),
        token: "t0k".to_string(),
    };
    assert_eq!(gl.api_base_url(), "https://gitlab.corp/api/v4");
    assert_eq!(gl.repo_api_url(), "https://gitlab.corp/api/v4/projects/team%2Fcore");
    assert_eq!(gl.pull_request_api_url(), "https://gitlab.corp/api/v4/projects/team%2Fcore/merge_requests");
    assert_eq!(gl.auth_header_name(), "PRIVATE-TOKEN");
    assert_eq!(gl.auth_header_value(), "t0k");
    let bb = GitProviderSpec { kind: GitProviderKind::BitbucketServer, ..gl.clone() };
    assert_eq!(bb.repo_clone_url(), "https://gitlab.corp/scm/team/core.git");
    assert_eq!(bb.auth_header_value(), "Bearer t0k");
}

#[test]
fn job_metrics_accumulate_promotions() {
    let mut m = JobMetrics::default();
    m.record_enqueue(4);
    m.record_promotion_lag_ms(120);
    m.record_promoted_events(3);
    m.record_promoted_events(2);
    assert_eq!((m.queue_depth, m.promotion_lag_ms, m.promoted_events), (4, 120, 5));
}

#[test]
fn changed_files_are_trimmed_lines() {
    assert_eq!(
        changed_files_in_diff("src/a.rs\r\n  \nREADME.md\n"),
        vec!["src/a.rs".to_string(), "README.md".to_string()]
    );
    assert!(changed_files_in_diff("").is_empty());
}

#[test]
fn bulk_import_keeps_first_of_each_commit() {
    let ids = vec!["a".to_string(), "b".to_string(), "a".to_string(), "c".to_string(), "b".to_string()];
    let (flags, duplicates) = first_occurrences(&ids);
    assert_eq!(flags, vec![true, true, false, true, false]);
    assert_eq!(duplicates, 2);
}

#[test]
fn sidecar_keys_are_sharded() {
    assert_eq!(stable_shard("abc", 16), 6);
    assert_eq!(stable_shard("abc", 1), 0);
    assert_eq!(sidecar_key("abc", 16, 1700000000), "evt:shard:0006:1700000000:abc");
    assert_eq!(sidecar_key("abc", 0, 5), "evt:shard:0000:5:abc");
    assert_eq!(sidecar_key("abc", 1000, 5), "evt:shard:0294:5:abc");
}

#[test]
fn snapshot_targets_join_under_root() {
    assert_eq!(AnalyticsSnapshotManager::new("/data").snapshot_target(7), "/data/snapshot-7.duckdb");
    assert_eq!(AnalyticsSnapshotManager::new("/data/").snapshot_target(7), "/data/snapshot-7.duckdb");
    assert_eq!(AnalyticsSnapshotManager::new("").snapshot_target(0), "snapshot-0.duckdb");
}

#[test]
fn import_summary_counts_duplicates() {
    let s = import_summary("bulk", 2, 5, 3);
    assert_eq!((s.records_processed, s.rows_inserted, s.duplicate_source_keys), (2, 3, 2));
    assert_eq!(import_summary("x", 0, 0, 1).duplicate_source_keys, 0);
}

#[test]
fn ast_cache_counts_unchanged_files() {
    let mut cache = AstCache::default();
    let a = cache.record_fingerprint("a.rs", 11);
    assert_eq!(a, 11);
    assert_eq!(cache.hits(), 0);
    cache.record_fingerprint("a.rs", 11);
    assert_eq!(cache.hits(), 1);
    cache.record_fingerprint("a.rs", 12);
    assert_eq!(cache.hits(), 1);
    let h1 = cache.fingerprint("b.rs", "fn b() {}");
    let h2 = cache.fingerprint("b.rs", "fn b() {}");
    assert_eq!(h1, h2);
    assert_eq!(cache.hits(), 2);
}

#[test]
fn default_app_state_uses_strict_sidecar() {
    let state = app_state();
    assert_eq!(state.db_path, "telemetry.db");
    assert_eq!(state.ingestion_backend.kind, IngestionBackendKind::BadgerSidecar);
    assert!(state.ingestion_backend.validate().is_ok());
    let (kv, col) = release_baseline_paths(&state).unwrap();
    assert_eq!((kv.as_str(), col.as_str()), ("telemetry-kv", "analytics.duckdb"));
}

#[test]
fn feedback_moves_the_revision_and_invalidates_caches() {
    let mut store: RiskFeedbackStore<f64> = RiskFeedbackStore::new();
    assert!(store.is_cache_valid(0));
    let e = store.record_incident("ops", "pr-1", "outage", 0.2);
    assert_eq!((e.revision, e.kind.as_str()), (1, "incident"));
    assert!(!store.is_cache_valid(0));
    let a = store.record_annotation("lead", "pr-1", "ok", -0.1);
    assert_eq!((a.revision, a.kind.as_str()), (2, "annotation"));
    assert_eq!(store.current_revision(), 2);
    assert_eq!(store.audit_log().len(), 2);
    let reloaded = RiskFeedbackStore::from_log(store.audit_log().clone());
    assert_eq!(reloaded.current_revision(), 2);
}

#[test]
fn changed_files_since_tag_runs_git_diff_only_with_a_release() {
    let none = changed_files_since_tag("", |_args: &Vec<String>| -> Result<String, AnalyzerError> {
        panic!("git must not run without a release")
    });
    assert_eq!(none, Ok(vec![]));
    let files = changed_files_since_tag("v1.2", |args: &Vec<String>| {
        assert_eq!(args, &vec!["diff".to_string(), "--name-only".to_string(), "v1.2".to_string(), "HEAD".to_string()]);
        Ok("a.rs\n\n b.rs \n".to_string())
    });
    assert_eq!(files, Ok(vec!["a.rs".to_string(), "b.rs".to_string()]));
    let failed = changed_files_since_tag("v1", |_args: &Vec<String>| Err(AnalyzerError::Git("bad tag".to_string())));
    assert_eq!(failed, Err(AnalyzerError::Git("bad tag".to_string())));
}
