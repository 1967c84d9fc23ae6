use repo_analyzer_core::errors::AnalyzerError;
use repo_analyzer_core::types::TelemetryPoint;
use repo_analyzer_core::storage::{
    event_prefix, initial_complexity, parse_event_timestamp, promotion_interval_ms, queue_capacity, shard_suffix,
    update_max_u64, update_max_usize, worker_step, AnalyticsQueryMode, AnalyticsSnapshot,
    AsyncIngestionMetrics, IngestionBackendConfig, IngestionBackendKind, IngestionEngine,
    IngestionRoute, RetentionPolicy, StorageOperation, StorageProfile, StorageRoute, WorkerAction,
    WorkerEvent,
};

fn backend(kind: IngestionBackendKind, strict: bool, endpoint: Option<&str>) -> IngestionBackendConfig {
    IngestionBackendConfig { kind, strict_badger_required: strict, endpoint: endpoint.map(|e| e.to_string()) }
}

#[test]
fn event_keys_carry_timestamp_shard_and_commit() {
    assert_eq!(shard_suffix("abc"), "06");
    assert_eq!(event_prefix(1700000000, "abc"), "evt:1700000000:06:abc");
    assert_eq!(event_prefix(-5, ""), "evt:-5:00:");
}

#[test]
fn event_key_timestamp_round_trips() {
    for ts in [0i64, 42, -42, i64::MAX, i64::MIN] {
        assert_eq!(parse_event_timestamp(&event_prefix(ts, "c1")), Some(ts));
    }
    assert_eq!(parse_event_timestamp("kv:12:00:x"), None);
    assert_eq!(parse_event_timestamp("evt:12x:00:x"), None);
    assert_eq!(parse_event_timestamp("evt"), None);
    assert_eq!(parse_event_timestamp("evt:+7"), Some(7));
}

#[test]
fn routes_keep_writes_and_queries_apart() {
    assert!(StorageRoute::Ingestion.enforce(StorageOperation::IngestWrite).is_ok());
    assert!(StorageRoute::Analytics.enforce(StorageOperation::AnalyticsQuery).is_ok());
    assert_eq!(
        StorageRoute::Analytics.enforce(StorageOperation::IngestWrite),
        Err(AnalyzerError::Db("Ingestion writes must route exclusively to BadgerDB".to_string()))
    );
    assert_eq!(
        StorageRoute::Ingestion.enforce(StorageOperation::AnalyticsQuery),
        Err(AnalyzerError::Db("Analytics queries must route exclusively to DuckDB".to_string()))
    );
}

#[test]
fn snapshots_are_read_only() {
    let snap = AnalyticsSnapshot::new("/tmp/s.duckdb", 3);
    assert!(snap.immutable);
    assert!(snap.enforce_mode(AnalyticsQueryMode::ReadOnly).is_ok());
    assert_eq!(
        snap.enforce_mode(AnalyticsQueryMode::Mutable),
        Err(AnalyzerError::Db("Analytics queries must execute against read-only snapshots".to_string()))
    );
}

#[test]
fn storage_profile_requires_badger_and_duckdb() {
    assert!(StorageProfile::strict_badger_duckdb().validate().is_ok());
    let upper = StorageProfile { ingestion_engine: IngestionEngine::BadgerDb, analytics_engine: "DuckDB".to_string() };
    assert!(upper.validate().is_ok());
    let sled = StorageProfile { ingestion_engine: IngestionEngine::Sled, analytics_engine: "duckdb".to_string() };
    assert_eq!(
        sled.validate(),
        Err(AnalyzerError::Db("Storage boundary violation: ingestion engine must be BadgerDB".to_string()))
    );
    let pg = StorageProfile { ingestion_engine: IngestionEngine::BadgerDb, analytics_engine: "postgres".to_string() };
    assert_eq!(
        pg.validate(),
        Err(AnalyzerError::Db("Storage boundary violation: analytics engine must be DuckDB".to_string()))
    );
}

#[test]
fn retention_expires_after_ttl() {
    let p = RetentionPolicy { raw_ttl_secs: 60 };
    assert!(!p.is_raw_event_expired(100, 160));
    assert!(p.is_raw_event_expired(100, 161));
}

#[test]
fn backend_validation_messages() {
    assert_eq!(
        backend(IngestionBackendKind::SledTransitional, true, None).validate(),
        Err(AnalyzerError::Db("Badger sidecar backend is required in strict mode".to_string()))
    );
    assert_eq!(
        backend(IngestionBackendKind::BadgerSidecar, true, Some("   ")).validate(),
        Err(AnalyzerError::Db("Badger sidecar endpoint is required".to_string()))
    );
    assert!(backend(IngestionBackendKind::SledTransitional, false, None).validate().is_ok());
}

#[test]
fn backend_routes_by_endpoint_scheme() {
    assert_eq!(backend(IngestionBackendKind::SledTransitional, false, None).route(), Ok(IngestionRoute::LocalKv));
    assert_eq!(
        backend(IngestionBackendKind::BadgerSidecar, true, Some("inproc://badger")).route(),
        Ok(IngestionRoute::LocalKv)
    );
    assert_eq!(
        backend(IngestionBackendKind::BadgerSidecar, true, Some("unix:///var/run/badger.sock")).route(),
        Ok(IngestionRoute::UnixSidecar("/var/run/badger.sock".to_string()))
    );
    assert_eq!(
        backend(IngestionBackendKind::BadgerSidecar, true, Some("unix://unix://x")).route(),
        Ok(IngestionRoute::UnixSidecar("x".to_string()))
    );
    assert_eq!(
        backend(IngestionBackendKind::BadgerSidecar, false, Some("tcp://host:1")).route(),
        Err(AnalyzerError::Io("badger sidecar transport failed: unsupported endpoint scheme".to_string()))
    );
}

#[test]
fn maxima_only_grow() {
    let mut a: u64 = 5;
    update_max_u64(&mut a, 3);
    assert_eq!(a, 5);
    update_max_u64(&mut a, 9);
    assert_eq!(a, 9);
    let mut b: usize = 0;
    update_max_usize(&mut b, 4);
    assert_eq!(b, 4);
}

#[test]
fn queue_settings_have_floors() {
    assert_eq!(promotion_interval_ms(0), 1);
    assert_eq!(promotion_interval_ms(250), 250);
    assert_eq!(queue_capacity(0), 1);
    assert_eq!(queue_capacity(8), 8);
}

#[test]
fn worker_tracks_queue_and_promotions() {
    let mut m = AsyncIngestionMetrics::new();
    m.record_enqueued();
    m.record_enqueued();
    assert_eq!((m.queue_depth, m.max_queue_depth), (2, 2));
    let a = worker_step(&mut m, WorkerEvent::Received { queued_lag_ms: 30 }, 10, 1000);
    assert_eq!(a, WorkerAction { ingest: true, promote: false, stop: false });
    assert_eq!((m.queue_depth, m.max_queue_depth, m.max_queue_lag_ms, m.promotion_count), (1, 2, 30, 0));
    let b = worker_step(&mut m, WorkerEvent::Timeout, 1000, 1000);
    assert_eq!(b, WorkerAction { ingest: false, promote: true, stop: false });
    assert_eq!(m.promotion_count, 1);
    m.record_enqueue_failed();
    assert_eq!(m.queue_depth, 0);
    let c = worker_step(&mut m, WorkerEvent::Disconnected, 5000, 1000);
    assert_eq!(c, WorkerAction { ingest: false, promote: false, stop: true });
    assert_eq!(m.promotion_count, 1);
}

#[test]
fn huge_lag_is_clamped() {
    let mut m = AsyncIngestionMetrics::new();
    m.record_enqueued();
    worker_step(&mut m, WorkerEvent::Received { queued_lag_ms: u128::MAX }, 0, 0);
    assert_eq!(m.max_queue_lag_ms, u64::MAX);
}

fn point(key: &str, value: f64) -> TelemetryPoint<f64> {
    TelemetryPoint { plugin: "p".to_string(), metric_key: key.to_string(), metric_value: value, details: String::new() }
}

#[test]
fn initial_complexity_takes_the_first_matching_reading() {
    let points = vec![
        point("coverage_delta", 1.0),
        point("estimated_cyclomatic_complexity", 7.5),
        point("estimated_cyclomatic_complexity", 9.0),
    ];
    assert_eq!(initial_complexity(&points), Some(7.5));
    assert_eq!(initial_complexity(&vec![point("coverage_delta", 1.0)]), None);
    assert_eq!(initial_complexity::<f64>(&vec![]), None);
}
