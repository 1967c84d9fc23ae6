pub mod app_support;
pub mod assoc;
pub mod ast_cache;
pub mod auth;
pub mod badger_sidecar;
pub mod budget_guard;
pub mod ci_gate;
pub mod errors;
pub mod fix_proposal;
pub mod git;
pub mod git_providers;
pub mod import;
pub mod incident_feedback;
pub mod observability;
pub mod onprem;
pub mod plugins;
pub mod policy;
pub mod retention;
pub mod risk_contract;
pub mod roadmap_coherence;
pub mod scoring;
pub mod snapshots;
pub mod storage;
pub mod team_policies;
pub mod telemetry;
pub mod text;
pub mod triage;
pub mod types;
pub mod fix_review;
