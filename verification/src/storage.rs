use vstd::prelude::*;
use vstd::string::StringExecFns;
use crate::errors::AnalyzerError;
use crate::types::TelemetryPoint;
use crate::text::{all_ascii, append_str, ascii_lowercase, chars_of, decimal, digit_char, lowercase_of, push_decimal,
    string_from_chars, to_lowercase, trim, trim_chars,
};
use crate::text::{lemma_split_on_piece, same_text, split_chars, split_on, token_views};
use vstd::utf8::encode_utf8;

verus! {

/// The key of the reading that gives a repository's baseline complexity.
pub open spec fn baseline_key() -> Seq<char> {
    "estimated_cyclomatic_complexity"@
}

/// The value of the first reading keyed `estimated_cyclomatic_complexity`, if there is one:
/// the complexity that a repository's baseline starts from.
pub fn initial_complexity<V: Copy>(points: &Vec<TelemetryPoint<V>>) -> (r: Option<V>)
    ensures
        match r {
            Some(v) => exists|i: int|
                0 <= i < points@.len() && (#[trigger] points@[i]).metric_key@ == baseline_key()
                    && v == points@[i].metric_value && forall|j: int|
                    0 <= j < i ==> (#[trigger] points@[j]).metric_key@ != baseline_key(),
            None => forall|i: int| 0 <= i < points@.len() ==> (#[trigger] points@[i]).metric_key@ != baseline_key(),
        },
{
    let key = "estimated_cyclomatic_complexity";
    let mut i: usize = 0;
    while i < points.len()
        invariant
            i <= points@.len(),
            key@ == baseline_key(),
            forall|j: int| 0 <= j < i ==> (#[trigger] points@[j]).metric_key@ != baseline_key(),
        decreases points.len() - i,
    {
        if same_text(points[i].metric_key.as_str(), key) {
            return Some(points[i].metric_value);
        }
        i = i + 1;
    }
    None
}

/// Counters of the asynchronous ingestion queue.
#[derive(Debug, Clone)]
pub struct AsyncIngestionMetrics {
    pub queue_depth: usize,
    pub max_queue_depth: usize,
    pub promotion_count: usize,
    pub max_queue_lag_ms: u64,
}

#[derive(Debug, Clone, Copy, PartialEq, Eq)]
pub enum IngestionEngine {
    BadgerDb,
    Sled,
}

#[derive(Debug, Clone, Copy, PartialEq, Eq)]
pub enum AnalyticsEngine {
    DuckDb,
}

/// The storage lane an operation runs on.
#[derive(Debug, Clone, Copy, PartialEq, Eq)]
pub enum StorageRoute {
    Ingestion,
    Analytics,
}

#[derive(Debug, Clone, Copy, PartialEq, Eq)]
pub enum StorageOperation {
    IngestWrite,
    AnalyticsQuery,
}

#[derive(Debug, Clone, Copy, PartialEq, Eq)]
pub enum AnalyticsQueryMode {
    ReadOnly,
    Mutable,
}

/// A materialized, read-only copy of the analytics store.
#[derive(Debug, Clone)]
pub struct AnalyticsSnapshot {
    pub path: String,
    pub snapshot_id: u64,
    pub immutable: bool,
}

impl AnalyticsSnapshot {
    pub fn new(path: &str, snapshot_id: u64) -> (r: Self)
        ensures
            r.path@ == path@,
            r.snapshot_id == snapshot_id,
            r.immutable,
    {
        AnalyticsSnapshot { path: String::from_str(path), snapshot_id, immutable: true }
    }

    /// Only read-only queries may run against a snapshot.
    pub fn enforce_mode(&self, mode: AnalyticsQueryMode) -> (r: Result<(), AnalyzerError>)
        ensures
            mode == AnalyticsQueryMode::ReadOnly ==> r is Ok,
            mode == AnalyticsQueryMode::Mutable ==> (r matches Err(AnalyzerError::Db(m)) && m@
                == "Analytics queries must execute against read-only snapshots"@),
    {
        match mode {
            AnalyticsQueryMode::ReadOnly => Ok(()),
            AnalyticsQueryMode::Mutable => Err(
                AnalyzerError::Db(
                    String::from_str("Analytics queries must execute against read-only snapshots"),
                ),
            ),
        }
    }
}

/// The lane each operation belongs to.
pub open spec fn route_allows(route: StorageRoute, op: StorageOperation) -> bool {
    (route == StorageRoute::Ingestion && op == StorageOperation::IngestWrite) || (route
        == StorageRoute::Analytics && op == StorageOperation::AnalyticsQuery)
}

impl StorageRoute {
    /// Ingestion writes go to the ingestion lane only, analytics queries to the analytics
    /// lane only.
    pub fn enforce(&self, op: StorageOperation) -> (r: Result<(), AnalyzerError>)
        ensures
            r is Ok <==> route_allows(*self, op),
            (*self == StorageRoute::Analytics && op == StorageOperation::IngestWrite) ==> (r matches Err(
                AnalyzerError::Db(m),
            ) && m@ == "Ingestion writes must route exclusively to BadgerDB"@),
            (*self == StorageRoute::Ingestion && op == StorageOperation::AnalyticsQuery) ==> (r matches Err(
                AnalyzerError::Db(m),
            ) && m@ == "Analytics queries must route exclusively to DuckDB"@),
    {
        match (self, op) {
            (StorageRoute::Ingestion, StorageOperation::IngestWrite) => Ok(()),
            (StorageRoute::Analytics, StorageOperation::AnalyticsQuery) => Ok(()),
            (StorageRoute::Analytics, StorageOperation::IngestWrite) => Err(
                AnalyzerError::Db(
                    String::from_str("Ingestion writes must route exclusively to BadgerDB"),
                ),
            ),
            (StorageRoute::Ingestion, StorageOperation::AnalyticsQuery) => Err(
                AnalyzerError::Db(
                    String::from_str("Analytics queries must route exclusively to DuckDB"),
                ),
            ),
        }
    }
}

/// The engines a deployment uses.
#[derive(Debug, Clone)]
pub struct StorageProfile {
    pub ingestion_engine: IngestionEngine,
    pub analytics_engine: String,
}

impl StorageProfile {
    pub fn strict_badger_duckdb() -> (r: Self)
        ensures
            r.ingestion_engine == IngestionEngine::BadgerDb,
            r.analytics_engine@ == "duckdb"@,
    {
        StorageProfile {
            ingestion_engine: IngestionEngine::BadgerDb,
            analytics_engine: String::from_str("duckdb"),
        }
    }

    /// Accepts only BadgerDB ingestion with a DuckDB analytics engine (named in any case).
    pub fn validate(&self) -> (r: Result<(), AnalyzerError>)
        ensures
            r is Ok <==> self.ingestion_engine == IngestionEngine::BadgerDb && lowercase_of(
                self.analytics_engine@,
            ) == "duckdb"@,
            self.ingestion_engine == IngestionEngine::Sled ==> (r matches Err(AnalyzerError::Db(m))
                && m@ == "Storage boundary violation: ingestion engine must be BadgerDB"@),
            self.ingestion_engine == IngestionEngine::BadgerDb && lowercase_of(self.analytics_engine@)
                != "duckdb"@ ==> (r matches Err(AnalyzerError::Db(m)) && m@
                == "Storage boundary violation: analytics engine must be DuckDB"@),
            self.ingestion_engine == IngestionEngine::BadgerDb && all_ascii(self.analytics_engine@)
                ==> lowercase_of(self.analytics_engine@) == ascii_lowercase(self.analytics_engine@),
    {
        match self.ingestion_engine {
            IngestionEngine::BadgerDb => {},
            IngestionEngine::Sled => {
                return Err(
                    AnalyzerError::Db(
                        String::from_str(
                            "Storage boundary violation: ingestion engine must be BadgerDB",
                        ),
                    ),
                );
            },
        }
        let lowered = to_lowercase(self.analytics_engine.as_str());
        if lowered != String::from_str("duckdb") {
            return Err(
                AnalyzerError::Db(
                    String::from_str("Storage boundary violation: analytics engine must be DuckDB"),
                ),
            );
        }
        Ok(())
    }
}

/// How long raw events are kept.
#[derive(Debug, Clone)]
pub struct RetentionPolicy {
    pub raw_ttl_secs: i64,
}

impl RetentionPolicy {
    /// An event is expired once more than the TTL has passed since it was recorded.
    pub fn is_raw_event_expired(&self, event_ts: i64, now_ts: i64) -> (r: bool)
        requires
            i64::MIN <= now_ts - event_ts <= i64::MAX,
        ensures
            r == (now_ts - event_ts > self.raw_ttl_secs),
    {
        now_ts - event_ts > self.raw_ttl_secs
    }
}

#[derive(Debug, Clone, Copy, PartialEq, Eq)]
pub enum IngestionBackendKind {
    BadgerSidecar,
    SledTransitional,
}

/// Where ingestion writes are sent.
#[derive(Debug, Clone)]
pub struct IngestionBackendConfig {
    pub kind: IngestionBackendKind,
    pub strict_badger_required: bool,
    pub endpoint: Option<String>,
}

/// The endpoint is missing or all whitespace.
pub open spec fn endpoint_blank(endpoint: Option<String>) -> bool {
    match endpoint {
        Some(e) => trim(e@).len() == 0,
        None => true,
    }
}

/// Why an ingestion backend configuration is refused, if it is.
pub open spec fn backend_error(config: IngestionBackendConfig) -> Option<Seq<char>> {
    if config.strict_badger_required && config.kind != IngestionBackendKind::BadgerSidecar {
        Some("Badger sidecar backend is required in strict mode"@)
    } else if config.kind == IngestionBackendKind::BadgerSidecar && endpoint_blank(config.endpoint) {
        Some("Badger sidecar endpoint is required"@)
    } else {
        None
    }
}

/// `s` begins with `p`.
pub open spec fn starts_with(s: Seq<char>, p: Seq<char>) -> bool {
    p.len() <= s.len() && s.take(p.len() as int) == p
}

/// `s` with every leading copy of `p` removed, as `str::trim_start_matches` gives it.
pub open spec fn trim_start_matches(s: Seq<char>, p: Seq<char>) -> Seq<char>
    decreases s.len(),
{
    if p.len() > 0 && starts_with(s, p) {
        trim_start_matches(s.skip(p.len() as int), p)
    } else {
        s
    }
}

/// Where an accepted event is written.
#[derive(Debug, Clone, PartialEq, Eq)]
pub enum IngestionRoute {
    /// Into the embedded key-value store.
    LocalKv,
    /// To the Badger sidecar listening on this Unix socket path.
    UnixSidecar(String),
}

/// The endpoint text, empty where none is set.
pub open spec fn endpoint_text(endpoint: Option<String>) -> Seq<char> {
    match endpoint {
        Some(e) => e@,
        None => seq![],
    }
}

fn starts_with_chars(s: &Vec<char>, p: &str) -> (r: bool)
    ensures
        r == starts_with(s@, p@),
{
    let pv = chars_of(p);
    if pv.len() > s.len() {
        return false;
    }
    let mut i: usize = 0;
    while i < pv.len()
        invariant
            i <= pv@.len() <= s@.len(),
            pv@ == p@,
            forall|k: int| 0 <= k < i ==> s@[k] == pv@[k],
        decreases pv.len() - i,
    {
        if s[i] != pv[i] {
            assert(s@.take(pv@.len() as int)[i as int] != p@[i as int]);
            return false;
        }
        i = i + 1;
    }
    assert(s@.take(pv@.len() as int) =~= p@);
    true
}

fn trim_start_matches_chars(s: &Vec<char>, p: &str) -> (r: Vec<char>)
    ensures
        r@ == trim_start_matches(s@, p@),
{
    let pv = chars_of(p);
    let n = pv.len();
    let mut cur: Vec<char> = Vec::new();
    let mut i: usize = 0;
    while i < s.len()
        invariant
            i <= s@.len(),
            cur@ == s@.take(i as int),
        decreases s.len() - i,
    {
        cur.push(s[i]);
        i = i + 1;
        assert(cur@ =~= s@.take(i as int));
    }
    assert(s@.take(i as int) =~= s@);
    if n == 0 {
        return cur;
    }
    loop
        invariant
            n == p@.len(),
            n > 0,
            trim_start_matches(cur@, p@) == trim_start_matches(s@, p@),
        decreases cur@.len(),
    {
        if !starts_with_chars(&cur, p) {
            return cur;
        }
        let mut next: Vec<char> = Vec::new();
        let mut j: usize = n;
        while j < cur.len()
            invariant
                n <= j <= cur@.len(),
                next@ == cur@.subrange(n as int, j as int),
            decreases cur.len() - j,
        {
            next.push(cur[j]);
            j = j + 1;
            assert(next@ =~= cur@.subrange(n as int, j as int));
        }
        assert(next@ =~= cur@.skip(n as int));
        cur = next;
    }
}

impl IngestionBackendConfig {
    /// Strict mode requires the Badger sidecar, and the sidecar requires an endpoint.
    pub fn validate(&self) -> (r: Result<(), AnalyzerError>)
        ensures
            match backend_error(*self) {
                None => r is Ok,
                Some(msg) => r matches Err(AnalyzerError::Db(m)) && m@ == msg,
            },
    {
        let is_sidecar = match self.kind {
            IngestionBackendKind::BadgerSidecar => true,
            IngestionBackendKind::SledTransitional => false,
        };
        if self.strict_badger_required && !is_sidecar {
            return Err(
                AnalyzerError::Db(String::from_str("Badger sidecar backend is required in strict mode")),
            );
        }
        if is_sidecar {
            let blank = match &self.endpoint {
                Some(e) => {
                    let v = chars_of(e.as_str());
                    trim_chars(&v).len() == 0
                },
                None => true,
            };
            if blank {
                return Err(AnalyzerError::Db(String::from_str("Badger sidecar endpoint is required")));
            }
        }
        Ok(())
    }

    /// Where an event goes: the sled store, the in-process Badger store (`inproc://`), or the
    /// Badger sidecar on a Unix socket (`unix://` and the socket path); another scheme is refused.
    pub fn route(&self) -> (r: Result<IngestionRoute, AnalyzerError>)
        ensures
            match backend_error(*self) {
                Some(msg) => r matches Err(AnalyzerError::Db(m)) && m@ == msg,
                None => match self.kind {
                    IngestionBackendKind::SledTransitional => r == Ok::<IngestionRoute, AnalyzerError>(
                        IngestionRoute::LocalKv,
                    ),
                    IngestionBackendKind::BadgerSidecar => if starts_with(
                        endpoint_text(self.endpoint),
                        "inproc://"@,
                    ) {
                        r == Ok::<IngestionRoute, AnalyzerError>(IngestionRoute::LocalKv)
                    } else if starts_with(endpoint_text(self.endpoint), "unix://"@) {
                        r matches Ok(IngestionRoute::UnixSidecar(path)) && path@ == trim_start_matches(
                            endpoint_text(self.endpoint),
                            "unix://"@,
                        )
                    } else {
                        r matches Err(AnalyzerError::Io(m)) && m@
                            == "badger sidecar transport failed: unsupported endpoint scheme"@
                    },
                },
            },
    {
        match self.validate() {
            Ok(()) => {},
            Err(e) => {
                return Err(e);
            },
        }
        match self.kind {
            IngestionBackendKind::SledTransitional => Ok(IngestionRoute::LocalKv),
            IngestionBackendKind::BadgerSidecar => {
                let endpoint: Vec<char> = match &self.endpoint {
                    Some(e) => chars_of(e.as_str()),
                    None => Vec::new(),
                };
                assert(endpoint@ == endpoint_text(self.endpoint));
                if starts_with_chars(&endpoint, "inproc://") {
                    Ok(IngestionRoute::LocalKv)
                } else if starts_with_chars(&endpoint, "unix://") {
                    let path = trim_start_matches_chars(&endpoint, "unix://");
                    Ok(IngestionRoute::UnixSidecar(string_from_chars(&path)))
                } else {
                    Err(
                        AnalyzerError::Io(
                            String::from_str("badger sidecar transport failed: unsupported endpoint scheme"),
                        ),
                    )
                }
            },
        }
    }
}

/// Counts of one promotion run.
#[derive(Debug, Clone)]
pub struct LifecycleStats {
    pub promoted_events: usize,
    pub pruned_events: usize,
}


/// Sum of the bytes of `b`.
pub open spec fn byte_sum(b: Seq<u8>) -> nat
    decreases b.len(),
{
    if b.len() == 0 {
        0
    } else {
        byte_sum(b.drop_last()) + b.last() as nat
    }
}

/// Lowercase hexadecimal digit of `d < 16`.
pub open spec fn hex_char(d: nat) -> char {
    if d < 10 {
        digit_char(d)
    } else if d == 10 {
        'a'
    } else if d == 11 {
        'b'
    } else if d == 12 {
        'c'
    } else if d == 13 {
        'd'
    } else if d == 14 {
        'e'
    } else {
        'f'
    }
}

/// The shard of a commit: the wrapping 16-bit sum of its bytes, modulo 16, as two hex digits.
pub open spec fn shard_of(commit_id: Seq<char>) -> Seq<char> {
    seq!['0', hex_char((byte_sum(encode_utf8(commit_id)) % 0x1_0000) % 16)]
}

pub fn hex_digit(d: u16) -> (c: char)
    requires
        d < 16,
    ensures
        c == hex_char(d as nat),
{
    if d == 0 { '0' } else if d == 1 { '1' } else if d == 2 { '2' } else if d == 3 { '3' }
    else if d == 4 { '4' } else if d == 5 { '5' } else if d == 6 { '6' } else if d == 7 { '7' }
    else if d == 8 { '8' } else if d == 9 { '9' } else if d == 10 { 'a' } else if d == 11 { 'b' }
    else if d == 12 { 'c' } else if d == 13 { 'd' } else if d == 14 { 'e' } else { 'f' }
}

pub fn shard_suffix(commit_id: &str) -> (r: String)
    ensures
        r@ == shard_of(commit_id@),
{
    let bytes = commit_id.as_bytes();
    let mut checksum: u16 = 0;
    let mut i: usize = 0;
    while i < bytes.len()
        invariant
            i <= bytes@.len(),
            bytes@ == encode_utf8(commit_id@),
            checksum == byte_sum(bytes@.take(i as int)) % 0x1_0000,
        decreases bytes.len() - i,
    {
        assert(bytes@.take(i + 1).drop_last() =~= bytes@.take(i as int));
        checksum = checksum.wrapping_add(bytes[i] as u16);
        i = i + 1;
    }
    assert(bytes@.take(i as int) =~= bytes@);
    let mut out: Vec<char> = Vec::new();
    out.push('0');
    out.push(hex_digit(checksum % 16));
    assert(out@ =~= shard_of(commit_id@));
    string_from_chars(&out)
}

/// The decimal form of a signed integer, as `{}` formats it.
pub open spec fn signed_decimal(n: int) -> Seq<char> {
    if n < 0 {
        seq!['-'] + decimal((-n) as nat)
    } else {
        decimal(n as nat)
    }
}

pub fn push_signed_decimal(dst: &mut Vec<char>, n: i64)
    ensures
        final(dst)@ == old(dst)@ + signed_decimal(n as int),
{
    if n < 0 {
        dst.push('-');
        let magnitude: u64 = if n == i64::MIN {
            0x8000_0000_0000_0000u64
        } else {
            (-n) as u64
        };
        push_decimal(dst, magnitude);
    } else {
        push_decimal(dst, n as u64);
    }
}

/// The key an ingested event is stored under: `evt:{timestamp}:{shard}:{commit_id}`.
pub open spec fn event_key(timestamp: i64, commit_id: Seq<char>) -> Seq<char> {
    "evt"@ + seq![':'] + signed_decimal(timestamp as int) + seq![':'] + shard_of(commit_id) + seq![
        ':',
    ] + commit_id
}

pub fn event_prefix(timestamp: i64, commit_id: &str) -> (r: String)
    ensures
        r@ == event_key(timestamp, commit_id@),
{
    let shard = shard_suffix(commit_id);
    let mut out: Vec<char> = Vec::new();
    append_str(&mut out, "evt");
    out.push(':');
    push_signed_decimal(&mut out, timestamp);
    out.push(':');
    append_str(&mut out, shard.as_str());
    out.push(':');
    append_str(&mut out, commit_id);
    assert(out@ =~= event_key(timestamp, commit_id@));
    string_from_chars(&out)
}

pub open spec fn is_digit(c: char) -> bool {
    '0' <= c <= '9'
}

pub open spec fn digit_value(c: char) -> int {
    (c as u32) - ('0' as u32)
}

/// The number the decimal digits `d` spell.
pub open spec fn digits_value(d: Seq<char>) -> int
    decreases d.len(),
{
    if d.len() == 0 {
        0
    } else {
        digits_value(d.drop_last()) * 10 + digit_value(d.last())
    }
}

/// What `str::parse::<i64>` gives: an optional sign, then one or more digits, in range.
pub open spec fn unsigned_part(s: Seq<char>) -> Seq<char> {
    if s.len() > 0 && (s[0] == '-' || s[0] == '+') {
        s.drop_first()
    } else {
        s
    }
}

pub open spec fn all_digits(d: Seq<char>) -> bool {
    forall|i: int| 0 <= i < d.len() ==> is_digit(#[trigger] d[i])
}

pub open spec fn parse_i64_spec(s: Seq<char>) -> Option<i64> {
    let neg = s.len() > 0 && s[0] == '-';
    let ds = unsigned_part(s);
    if ds.len() == 0 || !all_digits(ds) {
        None
    } else {
        let v = if neg { -digits_value(ds) } else { digits_value(ds) };
        if i64::MIN <= v <= i64::MAX {
            Some(v as i64)
        } else {
            None
        }
    }
}

proof fn lemma_digits_value_grows(d: Seq<char>, i: int)
    requires
        0 <= i <= d.len(),
        forall|m: int| 0 <= m < d.len() ==> is_digit(#[trigger] d[m]),
    ensures
        0 <= digits_value(d.take(i)) <= digits_value(d),
    decreases d.len(),
{
    if d.len() == 0 {
        assert(d.take(i) =~= d);
    } else if i == d.len() {
        assert(d.take(i) =~= d);
        lemma_digits_value_nonneg(d);
    } else {
        assert(d.drop_last().take(i) =~= d.take(i));
        lemma_digits_value_grows(d.drop_last(), i);
        lemma_digits_value_nonneg(d.drop_last());
    }
}

proof fn lemma_digits_value_nonneg(d: Seq<char>)
    requires
        forall|m: int| 0 <= m < d.len() ==> is_digit(#[trigger] d[m]),
    ensures
        0 <= digits_value(d),
    decreases d.len(),
{
    if d.len() > 0 {
        lemma_digits_value_nonneg(d.drop_last());
    }
}

fn parse_i64(s: &Vec<char>) -> (r: Option<i64>)
    ensures
        r == parse_i64_spec(s@),
{
    let n = s.len();
    let mut start: usize = 0;
    let mut neg = false;
    if n > 0 && (s[0] == '-' || s[0] == '+') {
        neg = s[0] == '-';
        start = 1;
    }
    let ghost ds = if start == 1 { s@.drop_first() } else { s@ };
    assert(ds =~= s@.subrange(start as int, n as int));
    if start == n {
        return None;
    }
    let mut mag: u64 = 0;
    let mut i = start;
    while i < n
        invariant
            start <= i <= n,
            n == s@.len(),
            ds == s@.subrange(start as int, n as int),
            ds == unsigned_part(s@),
            neg == (s@.len() > 0 && s@[0] == '-'),
            forall|m: int| 0 <= m < i - start ==> is_digit(#[trigger] ds[m]),
            mag as int == digits_value(ds.take(i - start)),
            mag <= 0x8000_0000_0000_0000u64,
        decreases n - i,
    {
        let c = s[i];
        if !('0' <= c && c <= '9') {
            assert(!is_digit(ds[i - start]));
            assert(!all_digits(ds));
            assert(ds.len() > 0);
            assert(parse_i64_spec(s@) is None);
            return None;
        }
        let d = (c as u32 - '0' as u32) as u64;
        assert(ds.take(i - start + 1).drop_last() =~= ds.take(i - start));
        if mag > (0x8000_0000_0000_0000u64 - d) / 10 {
            proof {
                let big = 0x8000_0000_0000_0000int;
                assert(mag * 10 + d > big) by (nonlinear_arith)
                    requires
                        mag > (big - d) / 10,
                        0 <= d < 10,
                ;
                assert(digits_value(ds.take(i - start + 1)) == mag * 10 + d);
                if all_digits(ds) {
                    lemma_digits_value_grows(ds, i - start + 1);
                }
                assert(parse_i64_spec(s@) is None);
            }
            return None;
        }
        mag = mag * 10 + d;
        i = i + 1;
    }
    assert(ds.take(n - start) =~= ds);
    if neg {
        if mag == 0x8000_0000_0000_0000u64 {
            Some(i64::MIN)
        } else {
            Some(-(mag as i64))
        }
    } else {
        if mag > 0x7fff_ffff_ffff_ffffu64 {
            None
        } else {
            Some(mag as i64)
        }
    }
}

/// The timestamp of an event key: its second `:`-separated field, when the first is `evt`.
pub open spec fn event_timestamp_of(key: Seq<char>) -> Option<i64> {
    let parts = split_on(key, ':');
    if parts.len() < 2 || parts[0] != "evt"@ {
        None
    } else {
        parse_i64_spec(parts[1])
    }
}

pub fn parse_event_timestamp(key: &str) -> (r: Option<i64>)
    ensures
        r == event_timestamp_of(key@),
{
    let chars = chars_of(key);
    let parts = split_chars(&chars, ':');
    assert(token_views(parts@).len() == parts@.len());
    if parts.len() < 2 {
        return None;
    }
    assert(parts@[0]@ == split_on(key@, ':')[0]);
    assert(parts@[1]@ == split_on(key@, ':')[1]);
    let first = string_from_chars(&parts[0]);
    if first != String::from_str("evt") {
        return None;
    }
    parse_i64(&parts[1])
}


proof fn lemma_digit_char_value(d: nat)
    requires
        d < 10,
    ensures
        digit_value(digit_char(d)) == d,
        is_digit(digit_char(d)),
{
    if d == 0 {
        assert(('0' as u32) == 48);
    } else if d == 1 {
        assert(('1' as u32) == 49);
    } else if d == 2 {
        assert(('2' as u32) == 50);
    } else if d == 3 {
        assert(('3' as u32) == 51);
    } else if d == 4 {
        assert(('4' as u32) == 52);
    } else if d == 5 {
        assert(('5' as u32) == 53);
    } else if d == 6 {
        assert(('6' as u32) == 54);
    } else if d == 7 {
        assert(('7' as u32) == 55);
    } else if d == 8 {
        assert(('8' as u32) == 56);
    } else {
        assert(('9' as u32) == 57);
    }
}

proof fn lemma_decimal_digits(n: nat)
    ensures
        decimal(n).len() > 0,
        all_digits(decimal(n)),
        digits_value(decimal(n)) == n,
    decreases n,
{
    lemma_digit_char_value(n % 10);
    if n < 10 {
        assert(decimal(n) =~= seq![digit_char(n)]);
        assert(seq![digit_char(n)].drop_last() =~= Seq::<char>::empty());
        assert(digits_value(decimal(n)) == digits_value(Seq::<char>::empty()) * 10 + digit_value(
            digit_char(n),
        ));
    } else {
        lemma_decimal_digits(n / 10);
        let d = decimal(n / 10);
        assert(decimal(n) == d.push(digit_char(n % 10)));
        assert(d.push(digit_char(n % 10)).drop_last() =~= d);
        assert(digits_value(decimal(n)) == digits_value(d) * 10 + digit_value(digit_char(n % 10)));
        assert((n / 10) * 10 + n % 10 == n);
        assert forall|i: int| 0 <= i < decimal(n).len() implies is_digit(#[trigger] decimal(n)[i]) by {
            if i < d.len() {
                assert(decimal(n)[i] == d[i]);
            }
        }
    }
}

proof fn lemma_signed_decimal_parses(ts: i64)
    ensures
        parse_i64_spec(signed_decimal(ts as int)) == Some(ts),
        forall|i: int| 0 <= i < signed_decimal(ts as int).len() ==> #[trigger] signed_decimal(
            ts as int,
        )[i] != ':',
{
    let d = signed_decimal(ts as int);
    if ts < 0 {
        lemma_decimal_digits((-ts) as nat);
        let dec = decimal((-ts) as nat);
        assert(d.drop_first() =~= dec);
        assert(unsigned_part(d) == dec);
        assert forall|i: int| 0 <= i < d.len() implies #[trigger] d[i] != ':' by {
            if i > 0 {
                assert(d[i] == dec[i - 1]);
                assert(is_digit(dec[i - 1]));
            }
        }
    } else {
        lemma_decimal_digits(ts as nat);
        assert(is_digit(d[0]));
        assert(unsigned_part(d) == d);
        assert forall|i: int| 0 <= i < d.len() implies #[trigger] d[i] != ':' by {
            assert(is_digit(d[i]));
        }
    }
}

/// An event key gives back the timestamp it was made with.
pub proof fn law_event_key_timestamp_roundtrip(timestamp: i64, commit_id: Seq<char>)
    ensures
        event_timestamp_of(event_key(timestamp, commit_id)) == Some(timestamp),
{
    reveal_strlit("evt");
    let evt = "evt"@;
    let d = signed_decimal(timestamp as int);
    lemma_signed_decimal_parses(timestamp);
    let rest = shard_of(commit_id) + seq![':'] + commit_id;
    assert(event_key(timestamp, commit_id) =~= evt + seq![':'] + (d + seq![':'] + rest));
    lemma_split_on_piece(evt, d + seq![':'] + rest, ':');
    lemma_split_on_piece(d, rest, ':');
    let parts = split_on(event_key(timestamp, commit_id), ':');
    assert(parts[0] == evt);
    assert(parts[1] == d);
}

/// Raises `metric` to `value` where `value` is larger.
pub fn update_max_u64(metric: &mut u64, value: u64)
    ensures
        *final(metric) == (if value > *old(metric) {
            value
        } else {
            *old(metric)
        }),
{
    if value > *metric {
        *metric = value;
    }
}

/// Raises `metric` to `value` where `value` is larger.
pub fn update_max_usize(metric: &mut usize, value: usize)
    ensures
        *final(metric) == (if value > *old(metric) {
            value
        } else {
            *old(metric)
        }),
{
    if value > *metric {
        *metric = value;
    }
}

/// `n + 1`, wrapping to zero past the largest value, as an atomic `fetch_add` does.
pub open spec fn wrapping_inc(n: nat, max: nat) -> nat {
    if n < max {
        n + 1
    } else {
        0
    }
}

/// `n - 1`, wrapping to the largest value below zero, as an atomic `fetch_sub` does.
pub open spec fn wrapping_dec(n: nat, max: nat) -> nat {
    if n > 0 {
        (n - 1) as nat
    } else {
        max
    }
}

/// The promotion interval actually used: at least one millisecond.
pub fn promotion_interval_ms(requested: u64) -> (r: u64)
    ensures
        r == (if requested >= 1 {
            requested
        } else {
            1
        }),
{
    if requested >= 1 {
        requested
    } else {
        1
    }
}

/// The capacity of the ingestion queue: at least one event.
pub fn queue_capacity(buffer_size: usize) -> (r: usize)
    ensures
        r == (if buffer_size >= 1 {
            buffer_size
        } else {
            1
        }),
{
    if buffer_size >= 1 {
        buffer_size
    } else {
        1
    }
}

/// What the background ingestion worker is woken by.
#[derive(Debug, Clone, Copy, PartialEq, Eq)]
pub enum WorkerEvent {
    /// An event arrived after waiting this many milliseconds in the queue.
    Received { queued_lag_ms: u128 },
    /// No event arrived within the promotion interval.
    Timeout,
    /// Every sender is gone.
    Disconnected,
}

/// What the worker does next.
#[derive(Debug, Clone, Copy, PartialEq, Eq)]
pub struct WorkerAction {
    pub ingest: bool,
    pub promote: bool,
    pub stop: bool,
}

impl AsyncIngestionMetrics {
    /// All counters at zero.
    pub fn new() -> (r: Self)
        ensures
            r.queue_depth == 0,
            r.max_queue_depth == 0,
            r.promotion_count == 0,
            r.max_queue_lag_ms == 0,
    {
        AsyncIngestionMetrics { queue_depth: 0, max_queue_depth: 0, promotion_count: 0, max_queue_lag_ms: 0 }
    }

    /// An event is being queued: the depth grows and the peak depth follows it.
    pub fn record_enqueued(&mut self)
        ensures
            final(self).queue_depth == wrapping_inc(old(self).queue_depth as nat, usize::MAX as nat),
            final(self).max_queue_depth == (if final(self).queue_depth > old(self).max_queue_depth {
                final(self).queue_depth
            } else {
                old(self).max_queue_depth
            }),
            final(self).promotion_count == old(self).promotion_count,
            final(self).max_queue_lag_ms == old(self).max_queue_lag_ms,
    {
        self.queue_depth = self.queue_depth.wrapping_add(1);
        let depth = self.queue_depth;
        update_max_usize(&mut self.max_queue_depth, depth);
    }

    /// The queue refused an event: the depth counted for it is given back.
    pub fn record_enqueue_failed(&mut self)
        ensures
            final(self).queue_depth == wrapping_dec(old(self).queue_depth as nat, usize::MAX as nat),
            final(self).max_queue_depth == old(self).max_queue_depth,
            final(self).promotion_count == old(self).promotion_count,
            final(self).max_queue_lag_ms == old(self).max_queue_lag_ms,
    {
        self.queue_depth = self.queue_depth.wrapping_sub(1);
    }
}

/// The worker's answer to one wake-up, with the counters it updates: a received event is
/// taken off the queue and ingested and its wait raises the peak lag; a promotion is due once
/// `since_promotion_ms` reaches the interval; the worker stops when the queue is closed.
pub fn worker_step(
    metrics: &mut AsyncIngestionMetrics,
    event: WorkerEvent,
    since_promotion_ms: u128,
    interval_ms: u64,
) -> (r: WorkerAction)
    ensures
        ({
            let interval = if interval_ms >= 1 {
                interval_ms as int
            } else {
                1
            };
            let due = since_promotion_ms >= interval;
            match event {
                WorkerEvent::Received { queued_lag_ms } => {
                    let lag: u64 = if queued_lag_ms < u64::MAX {
                        queued_lag_ms as u64
                    } else {
                        u64::MAX
                    };
                    &&& r == WorkerAction { ingest: true, promote: due, stop: false }
                    &&& final(metrics).queue_depth == wrapping_dec(
                        old(metrics).queue_depth as nat,
                        usize::MAX as nat,
                    )
                    &&& final(metrics).max_queue_lag_ms == (if lag > old(metrics).max_queue_lag_ms {
                        lag
                    } else {
                        old(metrics).max_queue_lag_ms
                    })
                },
                WorkerEvent::Timeout => {
                    &&& r == WorkerAction { ingest: false, promote: due, stop: false }
                    &&& final(metrics).queue_depth == old(metrics).queue_depth
                    &&& final(metrics).max_queue_lag_ms == old(metrics).max_queue_lag_ms
                },
                WorkerEvent::Disconnected => {
                    &&& r == WorkerAction { ingest: false, promote: false, stop: true }
                    &&& final(metrics).queue_depth == old(metrics).queue_depth
                    &&& final(metrics).max_queue_lag_ms == old(metrics).max_queue_lag_ms
                },
            }
        }),
        final(metrics).max_queue_depth == old(metrics).max_queue_depth,
        final(metrics).promotion_count == (if r.promote {
            wrapping_inc(old(metrics).promotion_count as nat, usize::MAX as nat)
        } else {
            old(metrics).promotion_count as nat
        }),
{
    let interval = promotion_interval_ms(interval_ms);
    let due = since_promotion_ms >= interval as u128;
    let action = match event {
        WorkerEvent::Received { queued_lag_ms } => {
            metrics.queue_depth = metrics.queue_depth.wrapping_sub(1);
            let lag: u64 = if queued_lag_ms < u64::MAX as u128 {
                queued_lag_ms as u64
            } else {
                u64::MAX
            };
            update_max_u64(&mut metrics.max_queue_lag_ms, lag);
            WorkerAction { ingest: true, promote: due, stop: false }
        },
        WorkerEvent::Timeout => WorkerAction { ingest: false, promote: due, stop: false },
        WorkerEvent::Disconnected => WorkerAction { ingest: false, promote: false, stop: true },
    };
    if action.promote {
        metrics.promotion_count = metrics.promotion_count.wrapping_add(1);
    }
    action
}

} // verus!
