use repo_analyzer_core::errors::AnalyzerError;
use repo_analyzer_core::onprem::{
    membership_from_groups, normalize_principal, ActiveDirectoryProvider, DirectoryLookup,
    DirectoryProvider, InternalGitProvider, LocalGitProvider, StaticDirectoryLookup,
};

fn denied(msg: &str) -> AnalyzerError {
    AnalyzerError::PermissionDenied(msg.to_string())
}

fn directory() -> StaticDirectoryLookup {
    StaticDirectoryLookup::new(vec![
        (" Alice ".to_string(), vec!["Engineering".to_string(), " SRE ".to_string()]),
        ("bob".to_string(), vec!["sales".to_string()]),
    ])
}

#[test]
fn local_git_provider_builds_internal_ssh_urls() {
    assert_eq!(LocalGitProvider.repo_url("core").unwrap(), "ssh://git.internal/core.git");
}

#[test]
fn principals_are_trimmed_and_lowercased() {
    assert_eq!(normalize_principal("  Alice ", "user").unwrap(), "alice");
    assert_eq!(normalize_principal("   ", "user"), Err(denied("blank user")));
    assert_eq!(
        normalize_principal("ops\u{7}team", "group"),
        Err(denied("invalid group contains control characters"))
    );
}

#[test]
fn static_lookup_normalizes_users_and_groups_and_counts_lookups() {
    let mut dir = directory();
    assert_eq!(dir.lookup_count(), 0);
    assert_eq!(dir.groups_for_user("ALICE").unwrap(), vec!["engineering".to_string(), "sre".to_string()]);
    assert_eq!(dir.groups_for_user("carol").unwrap(), Vec::<String>::new());
    assert_eq!(dir.groups_for_user(" ").unwrap_err(), denied("blank user"));
    assert_eq!(dir.lookup_count(), 3);
}

#[test]
fn later_directory_entry_replaces_earlier_one() {
    let mut dir = StaticDirectoryLookup::new(vec![
        ("dana".to_string(), vec!["a".to_string()]),
        ("DANA".to_string(), vec!["b".to_string()]),
    ]);
    assert_eq!(dir.groups_for_user("dana").unwrap(), vec!["b".to_string()]);
}

#[test]
fn membership_follows_aliases_and_is_cached() {
    let mut ad = ActiveDirectoryProvider::with_group_aliases(
        directory(),
        vec![("eng".to_string(), "Engineering".to_string())],
    );
    assert_eq!(ad.cache_size(), 0);
    assert!(ad.is_in_group("alice", "ENG").unwrap());
    assert_eq!(ad.cache_size(), 1);
    assert!(ad.is_in_group("Alice", "engineering").unwrap());
    assert_eq!(ad.cache_size(), 1);
    assert!(!ad.is_in_group("bob", "eng").unwrap());
    assert_eq!(ad.cache_size(), 2);
}

#[test]
fn alias_cycles_and_deep_chains_are_refused() {
    let ad = ActiveDirectoryProvider::with_group_aliases(
        directory(),
        vec![("a".to_string(), "b".to_string()), ("b".to_string(), "a".to_string())],
    );
    assert_eq!(ad.canonical_group("A"), Err(denied("group alias cycle detected for A")));

    let chain: Vec<(String, String)> =
        (0..9).map(|i| (format!("g{i}"), format!("g{}", i + 1))).collect();
    let deep = ActiveDirectoryProvider::with_group_aliases(directory(), chain);
    assert_eq!(deep.canonical_group("g0"), Err(denied("group alias chain too deep for g0")));
    assert_eq!(deep.canonical_group("g2").unwrap(), "g9");
}

#[test]
fn alias_to_itself_resolves_to_itself() {
    let ad = ActiveDirectoryProvider::with_group_aliases(
        directory(),
        vec![("ops".to_string(), "OPS".to_string()), ("  ".to_string(), "x".to_string())],
    );
    assert_eq!(ad.canonical_group(" Ops ").unwrap(), "ops");
    assert_eq!(ad.canonical_group("x").unwrap(), "x");
}

#[test]
fn invalid_user_or_group_is_refused_before_lookup() {
    let mut ad = ActiveDirectoryProvider::new(directory());
    assert_eq!(ad.is_in_group("", "eng"), Err(denied("blank user")));
    assert_eq!(ad.is_in_group("alice", "\t"), Err(denied("blank group")));
    assert_eq!(ad.cache_size(), 0);
}

#[test]
fn listed_groups_decide_membership() {
    let groups = vec!["Eng".to_string(), "ops".to_string()];
    assert_eq!(membership_from_groups(&groups, "ops"), Ok(true));
    assert_eq!(membership_from_groups(&groups, "sales"), Ok(false));
    let bad = vec!["eng".to_string(), " ".to_string()];
    assert_eq!(membership_from_groups(&bad, "eng"), Err(denied("blank group")));
}

#[test]
fn cached_answers_do_not_ask_the_directory_again() {
    let mut ad = ActiveDirectoryProvider::new(directory());
    assert!(ad.is_in_group("alice", "sre").unwrap());
    let asked = ad.directory().lookup_count();
    assert_eq!(asked, 1);
    assert!(ad.is_in_group(" ALICE ", "SRE").unwrap());
    assert_eq!(ad.directory().lookup_count(), asked);
    assert_eq!(ad.cache_size(), 1);
}

#[test]
fn lookup_count_counts_every_call() {
    let mut dir = directory();
    let users = ["alice", " ", "carol", "", "BOB"];
    for (n, u) in users.iter().enumerate() {
        let _ = dir.groups_for_user(u);
        assert_eq!(dir.lookup_count(), n + 1);
    }
}

#[test]
fn directory_answers_and_cache_holds_answered_questions() {
    let src = StaticDirectoryLookup::new(vec![(" Alice ".to_string(), vec!["Admins".to_string()])]);
    let mut p = ActiveDirectoryProvider::with_group_aliases(
        src,
        vec![("Administrators".to_string(), "admins".to_string())],
    );
    assert_eq!(p.is_in_group("ALICE", " administrators "), Ok(true));
    assert_eq!(p.is_in_group("alice", "developers"), Ok(false));
    assert_eq!(p.cache_size(), 2);
    assert_eq!(p.is_in_group(" ", "admins"), Err(denied("blank user")));
    assert_eq!(p.is_in_group("alice", "admins"), Ok(true));
    assert_eq!(p.cache_size(), 2);
    assert_eq!(p.directory().lookup_count(), 2);
}
