use repo_analyzer_core::plugins::ast_metrics::AstMetricsPlugin;
use repo_analyzer_core::plugins::code_quality::CodeQualityPlugin;
use repo_analyzer_core::plugins::complexity::ComplexityPlugin;
use repo_analyzer_core::plugins::parser::{
    digest_for, estimate_nodes, language_count_key, language_for, ParserPlugin,
};
use repo_analyzer_core::plugins::pr_approval::PrApprovalPlugin;
use repo_analyzer_core::plugins::velocity::ContributionVelocityPlugin;
use repo_analyzer_core::types::{AnalysisInput, RepoTarget};

#[test]
fn plugin_names() {
    assert_eq!(AstMetricsPlugin.name(), "ast_metrics");
    assert_eq!(CodeQualityPlugin.name(), "code_quality");
    assert_eq!(ComplexityPlugin.name(), "complexity");
    assert_eq!(PrApprovalPlugin.name(), "pr_approval");
    assert_eq!(ContributionVelocityPlugin.name(), "contribution_velocity");
    assert_eq!(ParserPlugin::new().name(), "parser");
}

#[test]
fn ast_metric_counts_changed_files() {
    let input = AnalysisInput {
        repo: RepoTarget { name: "r".to_string(), path: "/r".to_string() },
        changed_files: vec!["a.rs".to_string(), "b.rs".to_string()],
    };
    assert_eq!(AstMetricsPlugin.changed_file_count(&input), 2);
}

#[test]
fn todo_markers_do_not_overlap() {
    assert_eq!(CodeQualityPlugin.todo_markers("TODO: x\n// TODOTODO"), 3);
    assert_eq!(CodeQualityPlugin.todo_markers("todo"), 0);
}

#[test]
fn decision_points_per_token() {
    let counts = ComplexityPlugin.decision_point_counts("if a && b || c { for x in y {} } while z {} match q {}");
    assert_eq!(counts, vec![1, 1, 1, 1, 1, 1]);
    assert_eq!(ComplexityPlugin.decision_point_counts(""), vec![0, 0, 0, 0, 0, 0]);
}

#[test]
fn approval_counts_split_on_separator() {
    let blob = "fix a\nApproved-by: x\n----END----\nfeat b\n----END----\n\n";
    assert_eq!(PrApprovalPlugin.approval_counts(blob), (2, 1));
    assert_eq!(PrApprovalPlugin.approval_counts(""), (0, 0));
}

#[test]
fn numstat_fields_take_first_two_columns() {
    let stat = "3\t1\tsrc/a.rs\n-\t-\tlogo.png\n\nsingle\n";
    assert_eq!(
        ContributionVelocityPlugin.numstat_fields(stat),
        vec![("3".to_string(), "1".to_string()), ("-".to_string(), "-".to_string())]
    );
}

#[test]
fn language_from_extension() {
    assert_eq!(language_for("src/main.rs"), "rust");
    assert_eq!(language_for("ui/App.tsx"), "typescript");
    assert_eq!(language_for("a/b.jsx"), "javascript");
    assert_eq!(language_for("tool.py"), "python");
    assert_eq!(language_for("README.md"), "markdown");
    assert_eq!(language_for(".rs"), "unknown");
    assert_eq!(language_for("Makefile"), "unknown");
    assert_eq!(language_for("lib.rs/"), "rust");
    assert_eq!(language_for("src/.."), "unknown");
    assert_eq!(language_for("archive.tar.gz"), "unknown");
}

#[test]
fn node_estimate_counts_lines_and_structure() {
    assert_eq!(estimate_nodes("fn main() {\n    if x { }\n}\n\n", "rust"), 5);
    assert_eq!(estimate_nodes("", "unknown"), 1);
    assert_eq!(estimate_nodes("f(a, g(b)) {", "markdown"), 4);
    assert_eq!(estimate_nodes("def f():\n    pass\n", "python"), 3);
}

#[test]
fn parser_cache_hits_only_for_unchanged_contents() {
    let mut parser = ParserPlugin::new();
    let (hit, first) = parser.analyze_file("src/lib.rs", "fn a() {}\n");
    assert!(!hit);
    assert_eq!(first.language, "rust");
    assert_eq!(first.digest, digest_for("fn a() {}\n"));
    assert_eq!(first.node_estimate, 2);
    let (hit, again) = parser.analyze_file("src/lib.rs", "fn a() {}\n");
    assert!(hit);
    assert_eq!(again.digest, first.digest);
    let (hit, changed) = parser.analyze_file("src/lib.rs", "fn a() {}\nfn b() {}\n");
    assert!(!hit);
    assert_eq!(changed.node_estimate, 4);
}

#[test]
fn language_metrics_are_keyed_by_language() {
    assert_eq!(language_count_key("rust"), "language_rust_files");
}

#[test]
fn parser_run_totals_hits_misses_and_languages() {
    let mut parser = ParserPlugin::new();
    let files = vec![
        ("src/lib.rs".to_string(), "fn a() {}\n".to_string()),
        ("README.md".to_string(), "# t\n".to_string()),
        ("src/main.rs".to_string(), "fn main() {}\n".to_string()),
    ];
    let first = parser.summarize(&files);
    assert_eq!((first.hits, first.misses), (0, 3));
    assert_eq!(
        first.language_counts,
        vec![("language_markdown_files".to_string(), 1), ("language_rust_files".to_string(), 2)]
    );
    let second = parser.summarize(&files);
    assert_eq!((second.hits, second.misses), (3, 0));
    assert_eq!(second.node_estimate, first.node_estimate);
    assert_eq!(second.language_counts, first.language_counts);
}

#[test]
fn second_run_hits_every_file_even_when_a_path_repeats() {
    let mut parser = ParserPlugin::new();
    let files = vec![
        ("src/lib.rs".to_string(), "fn a() {}\n".to_string()),
        ("src/lib.rs".to_string(), "fn a() {}\n".to_string()),
        ("docs/x.md".to_string(), "# x\n".to_string()),
    ];
    let first = parser.summarize(&files);
    assert_eq!((first.hits, first.misses), (1, 2));
    let second = parser.summarize(&files);
    assert_eq!((second.hits, second.misses), (3, 0));
    assert_eq!(second.hits, first.hits + first.misses);
    assert_eq!(second.node_estimate, first.node_estimate);
    assert_eq!(second.language_counts, first.language_counts);
}
