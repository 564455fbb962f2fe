//! What the dashboard asks for: the live series of all listeners, the
//! history of a time range bucket by bucket, pages of request log rows, and
//! the state of the durable store.

use crate::aggregator::Aggregator;
use crate::config::MetricsStorage;
use crate::text::{is_blank, str_eq, text_is_blank};
use crate::window::{
    bucket_start, class_of, lemma_bucket_start, lemma_lists_add_up, lists_add_up, series_shows,
    status_class,
};
pub use crate::window::MetricsSeries;
use crate::window::StatusClass;
use vstd::prelude::*;
use vstd::string::*;

verus! {

/// One completed request, as it is logged. The latency is in microseconds.
#[derive(Debug, Clone)]
pub struct RequestLog {
    pub id: i64,
    pub timestamp: i64,
    pub listen_addr: String,
    pub method: String,
    pub path: String,
    pub status: i32,
    pub latency_us: u64,
    pub client_ip: String,
}

/// A question for the history of a time range, both ends included.
#[derive(Debug, Clone)]
pub struct QueryMetricsRequest {
    pub start_time: i64,
    pub end_time: i64,
    /// `None` asks for all listeners together.
    pub listen_addr: Option<String>,
}

/// One bucket of a history. The mean latency is in microseconds, rounded down.
#[derive(Debug, Clone, Copy, PartialEq, Eq, Structural)]
pub struct MetricsDataPoint {
    pub timestamp: i64,
    pub count: i64,
    pub status_2xx: i64,
    pub status_3xx: i64,
    pub status_4xx: i64,
    pub status_5xx: i64,
    pub avg_latency: u64,
}

/// The history of a time range, bucket by bucket.
#[derive(Debug, Clone)]
pub struct QueryMetricsResponse {
    pub data: Vec<MetricsDataPoint>,
}

/// A question for one page of the log rows of a time range.
#[derive(Debug, Clone)]
pub struct QueryRequestLogsRequest {
    pub start_time: i64,
    pub end_time: i64,
    pub listen_addr: Option<String>,
    /// The greatest number of rows to return; a negative one counts as 0.
    pub limit: i32,
    /// How many matching rows to pass over first; a negative one counts as 0.
    pub offset: i32,
}

/// One page of log rows.
#[derive(Debug, Clone)]
pub struct QueryRequestLogsResponse {
    pub logs: Vec<RequestLog>,
    /// How many rows match, on all pages together.
    pub total: i64,
}

/// The live series of all listeners. The series at place `i` of either list
/// belong to the listener at place `i` of `listen_addrs`.
#[derive(Debug, Clone)]
pub struct MetricsPayload {
    pub window_seconds: i32,
    pub listen_addrs: Vec<String>,
    pub by_listen_addr: Vec<MetricsSeries>,
    pub minute_window_seconds: i32,
    pub by_listen_minute: Vec<MetricsSeries>,
}

/// Why a query was not answered.
#[derive(Debug, Clone, Copy, PartialEq, Eq, Structural)]
pub enum QueryError {
    /// The range ends before it starts, or the bucket length is not positive.
    InvalidRange,
    /// The range is more than the machine can hold: its first bucket starts
    /// before the least second that can be written, or it has more buckets
    /// than can be counted.
    RangeTooLarge,
    /// More rows than can be counted.
    TooManyRows,
}

/// The state of the durable store, with what a look at the file system found.
#[derive(Debug, Clone)]
pub struct MetricsDBStatus {
    pub enabled: bool,
    pub initialized: bool,
    pub path: String,
    pub error: Option<String>,
    pub file_exists: bool,
    pub dir_exists: bool,
    pub dir_writable: bool,
    pub message: Option<String>,
}

/// What a look at the file system found at the path of the store.
#[derive(Debug, Clone, Copy, PartialEq, Eq, Structural)]
pub struct PathProbe {
    pub file_exists: bool,
    pub dir_exists: bool,
    pub dir_writable: bool,
}

/// Why the durable store is not in use.
#[derive(Debug, Clone, Copy, PartialEq, Eq, Structural)]
pub enum StorageError {
    /// No path is configured for the store.
    MissingPath,
    /// The store could not be opened.
    Unavailable,
}

/// What the process knows of its durable store. Proxying does not depend on
/// it: while the store is not initialised, metrics stay in memory.
pub struct MetricsDb {
    enabled: bool,
    initialized: bool,
    path: String,
    error: Option<String>,
}

impl MetricsDb {
    /// The store is switched on.
    pub closed spec fn enabled(&self) -> bool {
        self.enabled
    }

    /// The store was opened.
    pub closed spec fn initialized(&self) -> bool {
        self.initialized
    }

    /// The path of the store.
    pub closed spec fn path(&self) -> Seq<char> {
        self.path@
    }

    /// Why the last attempt to open the store failed, if it did.
    pub closed spec fn error(&self) -> Option<Seq<char>> {
        addr_of(self.error)
    }

    /// A store that is switched off and has no path.
    pub fn new() -> (db: MetricsDb)
        ensures
            !db.enabled(),
            !db.initialized(),
            db.path() == Seq::<char>::empty(),
            db.error() is None,
    {
        MetricsDb { enabled: false, initialized: false, path: String::new(), error: None }
    }

    /// Whether rows can be written to the store.
    pub fn is_ready(&self) -> (ready: bool)
        ensures
            ready == (self.enabled() && self.initialized()),
    {
        self.enabled && self.initialized
    }
}

/// Whether the configuration switches the store on.
pub open spec fn configured_on(storage: Option<MetricsStorage>) -> bool {
    storage is Some && storage->0.enabled
}

/// The path that the configuration names for the store; none where the
/// configuration has no store.
pub open spec fn configured_path(storage: Option<MetricsStorage>) -> Seq<char> {
    match storage {
        Some(m) => m.db_path@,
        None => Seq::empty(),
    }
}

/// Takes the configured store into the state, without opening it: the state
/// says whether the store is switched on and where it lies, also for a store
/// that is switched off. The store counts as not opened yet.
pub fn configure_metrics_db(db: &mut MetricsDb, storage: &Option<MetricsStorage>)
    ensures
        final(db).enabled() == configured_on(*storage),
        final(db).path() == configured_path(*storage),
        !final(db).initialized(),
        final(db).error() is None,
{
    match storage {
        Some(m) => {
            db.enabled = m.enabled;
            db.path = m.db_path.clone();
        },
        None => {
            db.enabled = false;
            db.path = String::new();
        },
    }
    db.initialized = false;
    db.error = None;
}

/// Takes note of an attempt to open the store at `db_path`, which failed
/// with `open_error` or succeeded with `None`. Whether the store is switched
/// on stays as it was configured. The store is initialised where the path is
/// not blank and the attempt succeeded; else the error is kept for the status.
pub fn init_db(db: &mut MetricsDb, db_path: String, open_error: Option<String>) -> (r: Result<
    (),
    StorageError,
>)
    ensures
        final(db).enabled() == old(db).enabled(),
        final(db).path() == db_path@,
        final(db).initialized() == (r is Ok),
        r == if is_blank(db_path@) {
            Err::<(), StorageError>(StorageError::MissingPath)
        } else if open_error is Some {
            Err::<(), StorageError>(StorageError::Unavailable)
        } else {
            Ok::<(), StorageError>(())
        },
        final(db).error() == if is_blank(db_path@) {
            None
        } else {
            addr_of(open_error)
        },
{
    let blank = text_is_blank(db_path.as_str());
    db.path = db_path;
    if blank {
        db.initialized = false;
        db.error = None;
        return Err(StorageError::MissingPath);
    }
    match open_error {
        Some(e) => {
            db.initialized = false;
            db.error = Some(e);
            Err(StorageError::Unavailable)
        },
        None => {
            db.initialized = true;
            db.error = None;
            Ok(())
        },
    }
}

fn copy_option(s: &Option<String>) -> (c: Option<String>)
    ensures
        c == *s,
{
    match s {
        Some(x) => Some(x.clone()),
        None => None,
    }
}

/// The state of the store together with what `probe` found at its path. The
/// state is reported whether or not the store is switched on: for a store
/// that was configured, the status shows the configured path and whether the
/// configuration switches it on.
pub fn get_metrics_db_status(db: &MetricsDb, probe: &PathProbe) -> (status: MetricsDBStatus)
    ensures
        status.enabled == db.enabled(),
        status.initialized == db.initialized(),
        status.path@ == db.path(),
        addr_of(status.error) == db.error(),
        status.file_exists == probe.file_exists,
        status.dir_exists == probe.dir_exists,
        status.dir_writable == probe.dir_writable,
        status.message is None,
{
    MetricsDBStatus {
        enabled: db.enabled,
        initialized: db.initialized,
        path: db.path.clone(),
        error: copy_option(&db.error),
        file_exists: probe.file_exists,
        dir_exists: probe.dir_exists,
        dir_writable: probe.dir_writable,
        message: None,
    }
}

/// The verdict on a trial connection to the store at `db_path`, which failed
/// with `open_error` or succeeded with `None`: whether the store can be
/// reached, and a message for the user.
pub fn test_metrics_db_connection(db_path: &str, open_error: &Option<String>) -> (r: (bool, String))
    ensures
        r.0 == (!is_blank(db_path@) && open_error is None),
        r.1@ == if is_blank(db_path@) {
            "数据库路径为空"@
        } else {
            match *open_error {
                Some(e) => e@,
                None => "连接成功"@,
            }
        },
{
    if text_is_blank(db_path) {
        return (false, String::from_str("数据库路径为空"));
    }
    match open_error {
        Some(e) => (false, e.clone()),
        None => (true, String::from_str("连接成功")),
    }
}

/// The live series of all listeners: for each the short and the long series,
/// as lists, with the spans of both. No listener occurs twice, and in every
/// entry of every series the count is the sum of the five classes.
pub fn get_metrics(aggregator: &Aggregator) -> (payload: MetricsPayload)
    requires
        aggregator.wf(),
    ensures
        payload.window_seconds == aggregator.short_span(),
        payload.minute_window_seconds == aggregator.long_span(),
        payload.listen_addrs@.len() == aggregator@.len(),
        payload.by_listen_addr@.len() == aggregator@.len(),
        payload.by_listen_minute@.len() == aggregator@.len(),
        forall|i: int|
            0 <= i < aggregator@.len() ==> {
                &&& (#[trigger] payload.listen_addrs@[i])@ == aggregator@[i].addr
                &&& series_shows(payload.by_listen_addr@[i], aggregator@[i].short)
                &&& series_shows(payload.by_listen_minute@[i], aggregator@[i].long)
            },
        forall|i: int, j: int|
            0 <= i < j < payload.listen_addrs@.len() ==> (#[trigger] payload.listen_addrs@[i])@ != (
            #[trigger] payload.listen_addrs@[j])@,
        forall|i: int|
            0 <= i < payload.by_listen_addr@.len() ==> lists_add_up(#[trigger] payload.by_listen_addr@[i]),
        forall|i: int|
            0 <= i < payload.by_listen_minute@.len() ==> lists_add_up(
                #[trigger] payload.by_listen_minute@[i],
            ),
{
    let mut listen_addrs: Vec<String> = Vec::new();
    let mut by_listen_addr: Vec<MetricsSeries> = Vec::new();
    let mut by_listen_minute: Vec<MetricsSeries> = Vec::new();
    let n = aggregator.listener_count();
    let mut i: usize = 0;
    while i < n
        invariant
            aggregator.wf(),
            n == aggregator@.len(),
            i <= n,
            listen_addrs@.len() == i,
            by_listen_addr@.len() == i,
            by_listen_minute@.len() == i,
            forall|k: int| 0 <= k < i ==> (#[trigger] listen_addrs@[k])@ == aggregator@[k].addr,
            forall|k: int|
                0 <= k < i ==> series_shows(#[trigger] by_listen_addr@[k], aggregator@[k].short),
            forall|k: int|
                0 <= k < i ==> series_shows(#[trigger] by_listen_minute@[k], aggregator@[k].long),
        decreases n - i,
    {
        listen_addrs.push(aggregator.listener_addr(i));
        by_listen_addr.push(aggregator.short_series(i));
        by_listen_minute.push(aggregator.long_series(i));
        i += 1;
    }
    proof {
        aggregator.lemma_in_order();
        assert forall|i: int| 0 <= i < by_listen_addr@.len() implies lists_add_up(
            #[trigger] by_listen_addr@[i],
        ) by {
            lemma_lists_add_up(by_listen_addr@[i], aggregator@[i].short);
        }
        assert forall|i: int| 0 <= i < by_listen_minute@.len() implies lists_add_up(
            #[trigger] by_listen_minute@[i],
        ) by {
            lemma_lists_add_up(by_listen_minute@[i], aggregator@[i].long);
        }
    }
    MetricsPayload {
        window_seconds: aggregator.short_window_seconds(),
        listen_addrs,
        by_listen_addr,
        minute_window_seconds: aggregator.long_window_seconds(),
        by_listen_minute,
    }
}

/// The characters of an optional text.
pub open spec fn addr_of(o: Option<String>) -> Option<Seq<char>> {
    match o {
        Some(s) => Some(s@),
        None => None,
    }
}

/// The row lies in the range, both ends included, and belongs to the listener
/// asked for, if one is.
pub open spec fn selected(l: RequestLog, start: int, end: int, addr: Option<Seq<char>>) -> bool {
    &&& start <= l.timestamp <= end
    &&& match addr {
        Some(a) => l.listen_addr@ == a,
        None => true,
    }
}

/// The rows that a query selects, in the order in which they are stored.
pub open spec fn selection(
    logs: Seq<RequestLog>,
    start: int,
    end: int,
    addr: Option<Seq<char>>,
) -> Seq<RequestLog> {
    logs.filter(|l: RequestLog| selected(l, start, end, addr))
}

/// `n`, or 0 where `n` is negative.
pub open spec fn at_least_zero(n: int) -> int {
    if n < 0 {
        0
    } else {
        n
    }
}

/// The page of `rows` that begins after `offset` rows and holds up to `limit`.
pub open spec fn page(rows: Seq<RequestLog>, offset: int, limit: int) -> Seq<RequestLog> {
    let from = if at_least_zero(offset) < rows.len() {
        at_least_zero(offset)
    } else {
        rows.len() as int
    };
    let to = if from + at_least_zero(limit) < rows.len() {
        from + at_least_zero(limit)
    } else {
        rows.len() as int
    };
    rows.subrange(from, to)
}

fn copy_log(l: &RequestLog) -> (c: RequestLog)
    ensures
        c == *l,
{
    RequestLog {
        id: l.id,
        timestamp: l.timestamp,
        listen_addr: l.listen_addr.clone(),
        method: l.method.clone(),
        path: l.path.clone(),
        status: l.status,
        latency_us: l.latency_us,
        client_ip: l.client_ip.clone(),
    }
}

fn is_selected(l: &RequestLog, start: i64, end: i64, addr: &Option<String>) -> (yes: bool)
    ensures
        yes == selected(*l, start as int, end as int, addr_of(*addr)),
{
    if l.timestamp < start || l.timestamp > end {
        return false;
    }
    match addr {
        Some(a) => str_eq(l.listen_addr.as_str(), a.as_str()),
        None => true,
    }
}

/// One page of the rows in a time range, with the number of all rows that
/// match. The rows come in the order in which they are stored.
pub fn query_request_logs(logs: &Vec<RequestLog>, req: &QueryRequestLogsRequest) -> (r: Result<
    QueryRequestLogsResponse,
    QueryError,
>)
    ensures
        match r {
            Ok(resp) => {
                let rows = selection(
                    logs@,
                    req.start_time as int,
                    req.end_time as int,
                    addr_of(req.listen_addr),
                );
                &&& logs@.len() <= i64::MAX
                &&& resp.total == rows.len()
                &&& resp.logs@ == page(rows, req.offset as int, req.limit as int)
            },
            Err(e) => logs@.len() > i64::MAX && e == QueryError::TooManyRows,
        },
{
    if logs.len() as u128 > i64::MAX as u128 {
        return Err(QueryError::TooManyRows);
    }
    let offset: i64 = if req.offset < 0 {
        0
    } else {
        req.offset as i64
    };
    let limit: i64 = if req.limit < 0 {
        0
    } else {
        req.limit as i64
    };
    let ghost pred = |l: RequestLog|
        selected(l, req.start_time as int, req.end_time as int, addr_of(req.listen_addr));
    let mut out: Vec<RequestLog> = Vec::new();
    let mut total: i64 = 0;
    let mut i: usize = 0;
    proof {
        reveal(Seq::filter);
    }
    while i < logs.len()
        invariant
            i <= logs.len(),
            logs@.len() <= i64::MAX,
            0 <= offset == at_least_zero(req.offset as int),
            0 <= limit == at_least_zero(req.limit as int),
            pred == (|l: RequestLog|
                selected(l, req.start_time as int, req.end_time as int, addr_of(req.listen_addr))),
            0 <= total <= i,
            total == logs@.take(i as int).filter(pred).len(),
            out@ == page(logs@.take(i as int).filter(pred), req.offset as int, req.limit as int),
        decreases logs.len() - i,
    {
        proof {
            let k = i as int;
            assert(logs@.take(k + 1) =~= logs@.take(k).push(logs@[k]));
            logs@.take(k).lemma_filter_push(logs@[k], pred);
        }
        if is_selected(&logs[i], req.start_time, req.end_time, &req.listen_addr) {
            if total >= offset && total - offset < limit {
                out.push(copy_log(&logs[i]));
            }
            total = total + 1;
        }
        i += 1;
    }
    proof {
        assert(logs@.take(logs@.len() as int) =~= logs@);
    }
    Ok(QueryRequestLogsResponse { logs: out, total })
}

/// What one bucket of a history has counted.
pub struct PointModel {
    pub count: int,
    pub s2xx: int,
    pub s3xx: int,
    pub s4xx: int,
    pub s5xx: int,
    pub latency_sum: int,
}

/// A bucket that has counted nothing.
pub open spec fn no_point() -> PointModel {
    PointModel { count: 0, s2xx: 0, s3xx: 0, s4xx: 0, s5xx: 0, latency_sum: 0 }
}

/// The bucket after one more row.
pub open spec fn point_add(p: PointModel, l: RequestLog) -> PointModel {
    let c = class_of(l.status as int);
    PointModel {
        count: p.count + 1,
        s2xx: p.s2xx + if c == StatusClass::Success {
            1int
        } else {
            0
        },
        s3xx: p.s3xx + if c == StatusClass::Redirect {
            1int
        } else {
            0
        },
        s4xx: p.s4xx + if c == StatusClass::ClientError {
            1int
        } else {
            0
        },
        s5xx: p.s5xx + if c == StatusClass::ServerError {
            1int
        } else {
            0
        },
        latency_sum: p.latency_sum + l.latency_us,
    }
}

/// What the selected rows with a time stamp from `lo` up to, not including,
/// `hi` add up to.
pub open spec fn point_of(
    logs: Seq<RequestLog>,
    start: int,
    end: int,
    addr: Option<Seq<char>>,
    lo: int,
    hi: int,
) -> PointModel
    decreases logs.len(),
{
    if logs.len() == 0 {
        no_point()
    } else {
        let p = point_of(logs.drop_last(), start, end, addr, lo, hi);
        if selected(logs.last(), start, end, addr) && lo <= logs.last().timestamp < hi {
            point_add(p, logs.last())
        } else {
            p
        }
    }
}

/// The data point shows what the bucket starting at `t` counted. A bucket
/// without requests has the mean latency 0.
pub open spec fn point_shows(d: MetricsDataPoint, p: PointModel, t: int) -> bool {
    &&& d.timestamp == t
    &&& d.count == p.count
    &&& d.status_2xx == p.s2xx
    &&& d.status_3xx == p.s3xx
    &&& d.status_4xx == p.s4xx
    &&& d.status_5xx == p.s5xx
    &&& d.avg_latency == if p.count > 0 {
        p.latency_sum / p.count
    } else {
        0
    }
}

/// A range is valid when it does not end before it starts and the bucket
/// length is positive. It may start before the epoch.
pub open spec fn valid_range(start: int, end: int, step: int) -> bool {
    start <= end && step > 0
}

/// The machine can hold the history of the range: its first bucket starts at
/// a second that can be written, and its buckets can be counted.
pub open spec fn fits_machine(start: int, end: int, step: int) -> bool {
    bucket_start(start, step) >= i64::MIN && point_count(start, end, step) <= usize::MAX
}

/// How many buckets a valid range holds: from the bucket of its first second
/// to the bucket of its last.
pub open spec fn point_count(start: int, end: int, step: int) -> int {
    (end - bucket_start(start, step)) / step + 1
}

/// The start of the bucket at place `i` of a range.
pub open spec fn point_time(start: int, step: int, i: int) -> int {
    bucket_start(start, step) + i * step
}

struct Acc {
    count: i64,
    s2xx: i64,
    s3xx: i64,
    s4xx: i64,
    s5xx: i64,
    sum: u128,
}

impl Acc {
    spec fn model(&self) -> PointModel {
        PointModel {
            count: self.count as int,
            s2xx: self.s2xx as int,
            s3xx: self.s3xx as int,
            s4xx: self.s4xx as int,
            s5xx: self.s5xx as int,
            latency_sum: self.sum as int,
        }
    }

    spec fn bounded(&self, rows: int) -> bool {
        &&& 0 <= self.count <= rows
        &&& 0 <= self.s2xx <= rows
        &&& 0 <= self.s3xx <= rows
        &&& 0 <= self.s4xx <= rows
        &&& 0 <= self.s5xx <= rows
        &&& self.sum <= self.count * u64::MAX
        &&& rows <= i64::MAX
    }
}

proof fn lemma_slot(d: int, step: int)
    requires
        d >= 0,
        step > 0,
    ensures
        0 <= d / step,
        (d / step) * step <= d < (d / step) * step + step,
{
    assert(0 <= d / step && (d / step) * step <= d < (d / step) * step + step) by (nonlinear_arith)
        requires
            d >= 0,
            step > 0,
    ;
}

proof fn lemma_slot_unique(d: int, step: int, i: int)
    requires
        step > 0,
        i * step <= d < i * step + step,
    ensures
        d / step == i,
{
    assert(d / step == i) by (nonlinear_arith)
        requires
            step > 0,
            i * step <= d < i * step + step,
    ;
}

proof fn lemma_step_mul(i: int, step: int)
    ensures
        (i + 1) * step == i * step + step,
{
    assert((i + 1) * step == i * step + step) by (nonlinear_arith);
}

/// The history of a time range: one data point for each bucket from the one
/// that holds the first second of the range to the one that holds the last,
/// in ascending order and without gaps. A bucket without requests is there
/// with counts of zero. Only rows within the range are counted, and only
/// those of the listener asked for, if one is.
///
/// Every range that does not end before it starts is answered, however long
/// it is and also where it starts before the epoch, as far as the machine can
/// hold the answer.
pub fn query_historical_metrics(
    logs: &Vec<RequestLog>,
    req: &QueryMetricsRequest,
    step_seconds: i64,
) -> (r: Result<QueryMetricsResponse, QueryError>)
    ensures
        match r {
            Ok(resp) => {
                let start = req.start_time as int;
                let end = req.end_time as int;
                let step = step_seconds as int;
                &&& valid_range(start, end, step)
                &&& fits_machine(start, end, step)
                &&& logs@.len() <= i64::MAX
                &&& resp.data@.len() == point_count(start, end, step)
                &&& forall|i: int|
                    0 <= i < resp.data@.len() ==> point_shows(
                        #[trigger] resp.data@[i],
                        point_of(
                            logs@,
                            start,
                            end,
                            addr_of(req.listen_addr),
                            point_time(start, step, i),
                            point_time(start, step, i) + step,
                        ),
                        point_time(start, step, i),
                    )
            },
            Err(e) => e == if !valid_range(
                req.start_time as int,
                req.end_time as int,
                step_seconds as int,
            ) {
                QueryError::InvalidRange
            } else if !fits_machine(req.start_time as int, req.end_time as int, step_seconds as int) {
                QueryError::RangeTooLarge
            } else {
                QueryError::TooManyRows
            } && (!valid_range(req.start_time as int, req.end_time as int, step_seconds as int)
                || !fits_machine(req.start_time as int, req.end_time as int, step_seconds as int)
                || logs@.len() > i64::MAX),
        },
{
    let start = req.start_time;
    let end = req.end_time;
    let step = step_seconds;
    if end < start || step <= 0 {
        return Err(QueryError::InvalidRange);
    }
    proof {
        lemma_bucket_start(start as int, step as int);
    }
    let into_bucket = match start.checked_rem_euclid(step) {
        Some(r) => r,
        None => {
            return Err(QueryError::InvalidRange);
        },
    };
    let b0 = match start.checked_sub(into_bucket) {
        Some(b) => b,
        None => {
            return Err(QueryError::RangeTooLarge);
        },
    };
    let ghost addr = addr_of(req.listen_addr);
    let slots: i128 = (end as i128 - b0 as i128) / (step as i128);
    proof {
        lemma_slot(end - b0, step as int);
    }
    if slots >= usize::MAX as i128 {
        return Err(QueryError::RangeTooLarge);
    }
    if logs.len() as u128 > i64::MAX as u128 {
        return Err(QueryError::TooManyRows);
    }
    let n: usize = (slots + 1) as usize;
    // One accumulator for each bucket of the range.
    let mut accs: Vec<Acc> = Vec::new();
    let mut times: Vec<i64> = Vec::new();
    let mut t = b0;
    while accs.len() < n
        invariant
            valid_range(start as int, end as int, step as int),
            b0 <= start,
            n == slots + 1,
            0 <= slots,
            slots * step <= end - b0,
            accs@.len() == times@.len(),
            accs@.len() <= n,
            t == b0 + accs@.len() * step || accs@.len() == n,
            forall|k: int| 0 <= k < accs@.len() ==> (#[trigger] accs@[k]).model() == no_point(),
            forall|k: int| 0 <= k < accs@.len() ==> (#[trigger] accs@[k]).bounded(0),
            forall|k: int| 0 <= k < times@.len() ==> #[trigger] times@[k] == b0 + k * step,
        decreases n - accs@.len(),
    {
        let ghost k = accs@.len() as int;
        accs.push(Acc { count: 0, s2xx: 0, s3xx: 0, s4xx: 0, s5xx: 0, sum: 0 });
        times.push(t);
        if accs.len() < n {
            proof {
                lemma_step_mul(k, step as int);
                assert((k + 1) * step <= slots * step) by (nonlinear_arith)
                    requires
                        k + 1 <= slots,
                        step > 0,
                ;
            }
            t = t + step;
        }
    }
    let mut j: usize = 0;
    while j < logs.len()
        invariant
            valid_range(start as int, end as int, step as int),
            b0 == bucket_start(start as int, step as int),
            b0 <= start,
            addr == addr_of(req.listen_addr),
            n == accs@.len(),
            n == slots + 1,
            0 <= slots,
            end - b0 < slots * step + step,
            j <= logs.len(),
            logs@.len() <= i64::MAX,
            forall|k: int|
                0 <= k < n ==> (#[trigger] accs@[k]).model() == point_of(
                    logs@.take(j as int),
                    start as int,
                    end as int,
                    addr,
                    b0 + k * step,
                    b0 + k * step + step,
                ),
            forall|k: int| 0 <= k < n ==> (#[trigger] accs@[k]).bounded(j as int),
        decreases logs.len() - j,
    {
        let l = &logs[j];
        let ghost prev = logs@.take(j as int);
        let ghost next = logs@.take(j as int + 1);
        proof {
            assert(next.drop_last() =~= prev);
        }
        if is_selected(l, start, end, &req.listen_addr) {
            let d: i128 = l.timestamp as i128 - b0 as i128;
            let idx = (d / (step as i128)) as usize;
            proof {
                lemma_slot(d as int, step as int);
                lemma_step_mul(slots as int, step as int);
                assert((d as int) / (step as int) < n) by (nonlinear_arith)
                    requires
                        step > 0,
                        d >= 0,
                        ((d as int) / (step as int)) * step <= d,
                        d < n * step,
                ;
            }
            let class = status_class(l.status);
            accs[idx].count = accs[idx].count + 1;
            match class {
                StatusClass::Success => {
                    accs[idx].s2xx = accs[idx].s2xx + 1;
                },
                StatusClass::Redirect => {
                    accs[idx].s3xx = accs[idx].s3xx + 1;
                },
                StatusClass::ClientError => {
                    accs[idx].s4xx = accs[idx].s4xx + 1;
                },
                StatusClass::ServerError => {
                    accs[idx].s5xx = accs[idx].s5xx + 1;
                },
                StatusClass::Failure => {},
            }
            accs[idx].sum = accs[idx].sum + l.latency_us as u128;
            proof {
                assert forall|k: int| 0 <= k < n implies (#[trigger] accs@[k]).model() == point_of(
                    next,
                    start as int,
                    end as int,
                    addr,
                    b0 + k * step,
                    b0 + k * step + step,
                ) by {
                    if k != idx {
                        if b0 + k * step <= l.timestamp < b0 + k * step + step {
                            lemma_slot_unique(d as int, step as int, k);
                        }
                    }
                }
            }
        }
        proof {
            assert forall|k: int| 0 <= k < n implies (#[trigger] accs@[k]).bounded(j as int + 1) by {}
        }
        j += 1;
    }
    proof {
        assert(logs@.take(logs@.len() as int) =~= logs@);
    }
    let mut data: Vec<MetricsDataPoint> = Vec::new();
    let mut i: usize = 0;
    while i < n
        invariant
            b0 == bucket_start(start as int, step as int),
            n == accs@.len(),
            n == times@.len(),
            i <= n,
            data@.len() == i,
            forall|k: int| 0 <= k < times@.len() ==> #[trigger] times@[k] == b0 + k * step,
            forall|k: int|
                0 <= k < n ==> (#[trigger] accs@[k]).model() == point_of(
                    logs@,
                    start as int,
                    end as int,
                    addr,
                    b0 + k * step,
                    b0 + k * step + step,
                ),
            forall|k: int| 0 <= k < n ==> (#[trigger] accs@[k]).bounded(logs@.len() as int),
            forall|k: int|
                0 <= k < i ==> point_shows(
                    #[trigger] data@[k],
                    point_of(
                        logs@,
                        start as int,
                        end as int,
                        addr,
                        point_time(start as int, step as int, k),
                        point_time(start as int, step as int, k) + step,
                    ),
                    point_time(start as int, step as int, k),
                ),
        decreases n - i,
    {
        let a = &accs[i];
        let avg: u64 = if a.count > 0 {
            proof {
                assert(a.sum / (a.count as u128) <= u64::MAX) by (nonlinear_arith)
                    requires
                        a.count > 0,
                        a.sum <= a.count * u64::MAX,
                ;
            }
            (a.sum / (a.count as u128)) as u64
        } else {
            0
        };
        data.push(
            MetricsDataPoint {
                timestamp: times[i],
                count: a.count,
                status_2xx: a.s2xx,
                status_3xx: a.s3xx,
                status_4xx: a.s4xx,
                status_5xx: a.s5xx,
                avg_latency: avg,
            },
        );
        i += 1;
    }
    Ok(QueryMetricsResponse { data })
}

/// The requests that the first `n` buckets of a history have counted together.
pub open spec fn history_total(
    logs: Seq<RequestLog>,
    start: int,
    end: int,
    addr: Option<Seq<char>>,
    step: int,
    n: int,
) -> int
    decreases n,
{
    if n <= 0 {
        0
    } else {
        history_total(logs, start, end, addr, step, n - 1) + point_of(
            logs,
            start,
            end,
            addr,
            point_time(start, step, n - 1),
            point_time(start, step, n - 1) + step,
        ).count
    }
}

proof fn lemma_total_with_one_more(
    prev: Seq<RequestLog>,
    l: RequestLog,
    start: int,
    end: int,
    addr: Option<Seq<char>>,
    step: int,
    m: int,
)
    requires
        step > 0,
        m >= 0,
    ensures
        history_total(prev.push(l), start, end, addr, step, m) == history_total(
            prev,
            start,
            end,
            addr,
            step,
            m,
        ) + if selected(l, start, end, addr) && bucket_start(start, step) <= l.timestamp
            < bucket_start(start, step) + m * step {
            1int
        } else {
            0
        },
    decreases m,
{
    if m > 0 {
        lemma_total_with_one_more(prev, l, start, end, addr, step, m - 1);
        lemma_step_mul(m - 1, step);
        assert(prev.push(l).drop_last() =~= prev);
    }
}

/// A history omits nothing: the counts of its buckets add up to the number of
/// rows in the range, and it has a bucket for every step of the range.
pub proof fn lemma_history_counts_every_row(
    logs: Seq<RequestLog>,
    start: int,
    end: int,
    addr: Option<Seq<char>>,
    step: int,
)
    requires
        valid_range(start, end, step),
    ensures
        point_count(start, end, step) >= 1,
        point_time(start, step, 0) <= start,
        end < point_time(start, step, point_count(start, end, step) - 1) + step,
        history_total(logs, start, end, addr, step, point_count(start, end, step)) == selection(
            logs,
            start,
            end,
            addr,
        ).len(),
    decreases logs.len(),
{
    let n = point_count(start, end, step);
    let b0 = bucket_start(start, step);
    lemma_slot(end - b0, step);
    lemma_step_mul(n - 1, step);
    reveal(Seq::filter);
    if logs.len() == 0 {
        assert(logs =~= Seq::<RequestLog>::empty());
        lemma_total_of_none(start, end, addr, step, n);
    } else {
        let prev = logs.drop_last();
        let l = logs.last();
        lemma_history_counts_every_row(prev, start, end, addr, step);
        assert(prev.push(l) =~= logs);
        lemma_total_with_one_more(prev, l, start, end, addr, step, n);
    }
}

proof fn lemma_total_of_none(start: int, end: int, addr: Option<Seq<char>>, step: int, m: int)
    ensures
        history_total(Seq::<RequestLog>::empty(), start, end, addr, step, m) == 0,
    decreases m,
{
    if m > 0 {
        lemma_total_of_none(start, end, addr, step, m - 1);
    }
}

} // verus!
