use repo_analyzer_core::team_policies::{TeamPolicyCatalog, TeamPolicyProfile};

#[derive(Debug, Clone, PartialEq)]
struct ScoringWeights {
    version: String,
    complexity_weight: f64,
    coverage_weight: f64,
    churn_weight: f64,
    pipeline_weight: f64,
    pr_file_risk_weight: f64,
    pr_velocity_weight: f64,
    pr_approval_weight: f64,
}

fn weights(version: &str, w: [f64; 7]) -> ScoringWeights {
    ScoringWeights {
        version: version.to_string(),
        complexity_weight: w[0],
        coverage_weight: w[1],
        churn_weight: w[2],
        pipeline_weight: w[3],
        pr_file_risk_weight: w[4],
        pr_velocity_weight: w[5],
        pr_approval_weight: w[6],
    }
}

fn default_catalog() -> TeamPolicyCatalog<ScoringWeights> {
    TeamPolicyCatalog::with_weights(
        weights("v1", [0.30, 0.25, 0.20, 0.25, 0.50, 0.20, 0.30]),
        weights("policy-security", [0.24, 0.18, 0.16, 0.22, 0.58, 0.16, 0.34]),
        weights("policy-frontend", [0.22, 0.32, 0.16, 0.20, 0.44, 0.26, 0.30]),
        weights("policy-platform", [0.30, 0.22, 0.24, 0.24, 0.50, 0.18, 0.32]),
    )
}

fn resolve_team_policy(team: &str) -> TeamPolicyProfile<ScoringWeights> {
    default_catalog().resolve(team).clone()
}

fn resolve_team_scoring_weights(team: &str) -> ScoringWeights {
    resolve_team_policy(team).scoring_weights
}

#[test]
fn resolves_security_policy_profile() {
    let profile = resolve_team_policy("Security");
    assert_eq!(profile.team, "security");
    assert!(profile.scoring_weights.pr_approval_weight > 0.30);
    assert!(profile.approval_note.contains("approval fidelity"));
}

#[test]
fn resolves_frontend_policy_profile() {
    let weights = resolve_team_scoring_weights("frontend");
    assert!(weights.coverage_weight > weights.churn_weight);
    assert_eq!(weights.version, "policy-frontend");
}

#[test]
fn falls_back_to_default_profile_for_unknown_teams() {
    let catalog = default_catalog();
    let profile = catalog.resolve("unknown-team");
    assert_eq!(profile.team, "default");
    assert_eq!(profile.scoring_weights.version, "v1");
}

#[test]
fn platform_profile_is_matched_after_trimming() {
    let profile = resolve_team_policy("  Platform\t");
    assert_eq!(profile.label, "Platform Reliability");
    assert!(profile.scoring_weights.churn_weight > 0.2 && profile.scoring_weights.pipeline_weight > 0.2);
}
