use vstd::prelude::*;
use vstd::string::StringExecFns;
use crate::storage::{IngestionBackendConfig, IngestionBackendKind};

verus! {

/// Where the application keeps its data, and how it ingests events.
#[derive(Debug, Clone)]
pub struct AppState {
    pub db_path: String,
    pub kv_path: String,
    pub columnar_path: String,
    pub weights_path: String,
    pub audit_path: String,
    pub ingestion_backend: IngestionBackendConfig,
}

/// The default locations, with the strict Badger sidecar on its standard socket.
pub fn app_state() -> (r: AppState)
    ensures
        r.db_path@ == "telemetry.db"@,
        r.kv_path@ == "telemetry-kv"@,
        r.columnar_path@ == "analytics.duckdb"@,
        r.weights_path@ == "scoring-weights.json"@,
        r.audit_path@ == "scoring-audit.jsonl"@,
        r.ingestion_backend.kind == IngestionBackendKind::BadgerSidecar,
        r.ingestion_backend.strict_badger_required,
        r.ingestion_backend.endpoint matches Some(e) && e@ == "unix:///var/run/badger.sock"@,
{
    AppState {
        db_path: String::from_str("telemetry.db"),
        kv_path: String::from_str("telemetry-kv"),
        columnar_path: String::from_str("analytics.duckdb"),
        weights_path: String::from_str("scoring-weights.json"),
        audit_path: String::from_str("scoring-audit.jsonl"),
        ingestion_backend: IngestionBackendConfig {
            kind: IngestionBackendKind::BadgerSidecar,
            strict_badger_required: true,
            endpoint: Some(String::from_str("unix:///var/run/badger.sock")),
        },
    }
}

/// The key-value and columnar store paths that hold release baselines.
pub fn release_baseline_paths(state: &AppState) -> (r: Result<(String, String), String>)
    ensures
        r matches Ok((kv, col)) && kv@ == state.kv_path@ && col@ == state.columnar_path@,
{
    Ok((String::from_str(state.kv_path.as_str()), String::from_str(state.columnar_path.as_str())))
}

} // verus!
