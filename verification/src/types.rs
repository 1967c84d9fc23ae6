use vstd::prelude::*;

verus! {

/// A repository to analyze.
#[derive(Debug, Clone)]
pub struct RepoTarget {
    pub name: String,
    pub path: String,
}

/// What an analysis plugin reads: a repository and the files changed since the release.
#[derive(Debug, Clone)]
pub struct AnalysisInput {
    pub repo: RepoTarget,
    pub changed_files: Vec<String>,
}

/// Filter of an admin query by repository name and release.
#[derive(Debug, Clone)]
pub struct AdminQuery {
    pub name: Option<String>,
    pub release: Option<String>,
}

/// An authenticated caller and its roles.
#[derive(Debug, Clone)]
pub struct Principal {
    pub user: String,
    pub roles: Vec<String>,
}

/// One metric that a plugin reports; the value is of any type (the application keeps it as a
/// floating-point number).
#[derive(Debug, Clone)]
pub struct AnalysisMetric<V> {
    pub plugin: String,
    pub key: String,
    pub value: V,
    pub details: String,
}

/// One telemetry reading of a commit; the value is of any type (the application keeps it as a
/// floating-point number).
#[derive(Debug, Clone)]
pub struct TelemetryPoint<V> {
    pub plugin: String,
    pub metric_key: String,
    pub metric_value: V,
    pub details: String,
}

} // verus!
