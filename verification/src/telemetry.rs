use vstd::prelude::*;
use vstd::string::StringExecFns;

verus! {

/// The outcome of one import into the telemetry store.
#[derive(Debug, Clone, PartialEq, Eq)]
pub struct TelemetryImportSummary {
    pub source: String,
    pub records_processed: usize,
    pub rows_inserted: usize,
    pub duplicate_source_keys: usize,
}

/// The summary of an import: the rows that were attempted but not inserted were duplicates.
pub fn import_summary(source: &str, records_processed: usize, rows_attempted: usize, rows_inserted: usize) -> (r: TelemetryImportSummary)
    ensures
        r.source@ == source@,
        r.records_processed == records_processed,
        r.rows_inserted == rows_inserted,
        r.duplicate_source_keys == (if rows_attempted >= rows_inserted {
            rows_attempted - rows_inserted
        } else {
            0
        }),
{
    TelemetryImportSummary {
        source: String::from_str(source),
        records_processed,
        rows_inserted,
        duplicate_source_keys: rows_attempted.saturating_sub(rows_inserted),
    }
}

} // verus!
