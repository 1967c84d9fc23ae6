pub mod ast_metrics;
pub mod code_quality;
pub mod complexity;
pub mod parser;
pub mod pr_approval;
pub mod sanitizer;
pub mod velocity;
