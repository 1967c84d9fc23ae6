use repo_analyzer_core::errors::AnalyzerError;
use repo_analyzer_core::policy::PolicyProfiles;

#[test]
fn policy_profiles_resolve_exact_names() {
    let mut profiles: PolicyProfiles<u32> = PolicyProfiles::default();
    profiles.insert("security".to_string(), 1);
    profiles.insert("platform".to_string(), 2);
    profiles.insert("security".to_string(), 3);
    assert_eq!(profiles.resolve("security"), Ok(&3));
    assert_eq!(profiles.resolve("platform"), Ok(&2));
    assert_eq!(
        profiles.resolve("Security"),
        Err(AnalyzerError::Db("missing policy profile: Security".to_string()))
    );
}
