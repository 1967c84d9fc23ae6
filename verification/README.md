# repo_analyzer_core

A repository analyzer's core, verified with Verus: credential and contact redaction, signed
admin tokens, on-prem directory checks with group aliases and a membership cache, storage lane
and ingestion-backend rules, event keys and their timestamps, the ingestion worker's decisions,
signed scoring configurations, the analysis beads' counting, the parser's digest cache, CI gate
comments, triage bodies, fix-proposal and roadmap checks.

- `src/` is the verified library. Each public function states its result in its `ensures`;
  the `law_*` proof functions state properties that span functions.
- `app/` is the command host around it: files, SQLite, sled and DuckDB, git, threads, JSON and
  every floating-point score.
- `tests/` runs the library on concrete values.
