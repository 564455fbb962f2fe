//! One time-bucketed series: request counts and latencies per bucket, for the
//! buckets that lie within a fixed span before the newest one.
//!
//! Samples may arrive in any order. The time stamp of a sample, not the order
//! of arrival, decides its bucket.

use crate::percentile::{percentile_of, tail_latencies};
use vstd::prelude::*;

verus! {

/// The greatest number of latency samples that a bucket keeps for percentiles.
pub const RESERVOIR_CAPACITY: usize = 512;

/// The class of a response status. `Failure` stands for a request that got no
/// response in the range 200..=599: a failure at the level of the connection.
#[derive(Debug, Clone, Copy, PartialEq, Eq, Structural)]
pub enum StatusClass {
    Success,
    Redirect,
    ClientError,
    ServerError,
    Failure,
}

/// The class of a status.
pub open spec fn class_of(status: int) -> StatusClass {
    if 200 <= status <= 299 {
        StatusClass::Success
    } else if 300 <= status <= 399 {
        StatusClass::Redirect
    } else if 400 <= status <= 499 {
        StatusClass::ClientError
    } else if 500 <= status <= 599 {
        StatusClass::ServerError
    } else {
        StatusClass::Failure
    }
}

/// The class of a status: 2xx, 3xx, 4xx, 5xx, or a failure for any other number.
pub fn status_class(status: i32) -> (class: StatusClass)
    ensures
        class == class_of(status as int),
{
    if 200 <= status && status <= 299 {
        StatusClass::Success
    } else if 300 <= status && status <= 399 {
        StatusClass::Redirect
    } else if 400 <= status && status <= 499 {
        StatusClass::ClientError
    } else if 500 <= status && status <= 599 {
        StatusClass::ServerError
    } else {
        StatusClass::Failure
    }
}

/// What a bucket has counted.
pub struct Tally {
    pub count: int,
    pub s2xx: int,
    pub s3xx: int,
    pub s4xx: int,
    pub s5xx: int,
    pub s0: int,
    /// The sum of the latencies, in microseconds.
    pub latency_sum: int,
    /// The greatest latency, in microseconds.
    pub latency_max: int,
}

/// A bucket as the contracts see it: its tally and its latency samples.
pub struct BucketModel {
    pub tally: Tally,
    pub samples: Seq<u64>,
}

/// A series as the contracts see it: the start of the newest bucket, and the
/// buckets by their start.
pub struct WindowModel {
    pub newest: Option<int>,
    pub buckets: Map<int, BucketModel>,
}

/// The tally of a bucket that has counted nothing.
pub open spec fn no_tally() -> Tally {
    Tally { count: 0, s2xx: 0, s3xx: 0, s4xx: 0, s5xx: 0, s0: 0, latency_sum: 0, latency_max: 0 }
}

/// 1 where `b` holds, else 0.
pub open spec fn one_if(b: bool) -> int {
    if b {
        1
    } else {
        0
    }
}

/// The tally after one more request with this status and latency.
pub open spec fn tally_add(t: Tally, status: int, latency: int) -> Tally {
    let c = class_of(status);
    Tally {
        count: t.count + 1,
        s2xx: t.s2xx + one_if(c == StatusClass::Success),
        s3xx: t.s3xx + one_if(c == StatusClass::Redirect),
        s4xx: t.s4xx + one_if(c == StatusClass::ClientError),
        s5xx: t.s5xx + one_if(c == StatusClass::ServerError),
        s0: t.s0 + one_if(c == StatusClass::Failure),
        latency_sum: t.latency_sum + latency,
        latency_max: if latency > t.latency_max {
            latency
        } else {
            t.latency_max
        },
    }
}

/// The samples after one more latency: it is appended while there is room,
/// and afterwards takes the place of the oldest sample kept.
pub open spec fn reservoir_add(samples: Seq<u64>, seen: int, latency: u64) -> Seq<u64> {
    if samples.len() < RESERVOIR_CAPACITY {
        samples.push(latency)
    } else {
        samples.update(seen % (RESERVOIR_CAPACITY as int), latency)
    }
}

/// The bucket after one more request.
pub open spec fn bucket_add(b: BucketModel, status: int, latency: u64) -> BucketModel {
    BucketModel {
        tally: tally_add(b.tally, status, latency as int),
        samples: reservoir_add(b.samples, b.tally.count, latency),
    }
}

/// A bucket that has counted nothing.
pub open spec fn no_bucket() -> BucketModel {
    BucketModel { tally: no_tally(), samples: Seq::empty() }
}

/// The start of the bucket that the second `ts` lies in.
pub open spec fn bucket_start(ts: int, step: int) -> int {
    ts - ts % step
}

/// A bucket starts at or before each of its seconds, less than a step before,
/// and not before the epoch where the second is not.
pub proof fn lemma_bucket_start(ts: int, step: int)
    requires
        step > 0,
    ensures
        bucket_start(ts, step) <= ts,
        ts - bucket_start(ts, step) < step,
        0 <= ts % step < step,
        ts >= 0 ==> 0 <= bucket_start(ts, step),
{
    assert(0 <= ts % step < step && (ts >= 0 ==> ts % step <= ts)) by (nonlinear_arith)
        requires
            step > 0,
    ;
}

/// The bucket that starts at `k` lies within `span` seconds before `newest`.
pub open spec fn within(k: int, newest: int, span: int) -> bool {
    newest - k < span
}

/// The bucket of `m` that starts at `k`, or an empty one.
pub open spec fn bucket_or_none(m: Map<int, BucketModel>, k: int) -> BucketModel {
    if m.contains_key(k) {
        m[k]
    } else {
        no_bucket()
    }
}

/// The series after one more sample: the newest bucket is the later of the
/// old newest and the sample's; buckets that fall out of the span before it
/// are dropped; and the sample is counted in its bucket, if that lies within
/// the span.
pub open spec fn record_model(
    m: WindowModel,
    span: int,
    step: int,
    ts: int,
    status: int,
    latency: u64,
) -> WindowModel {
    let b = bucket_start(ts, step);
    let newest = match m.newest {
        Some(n) => if n >= b {
            n
        } else {
            b
        },
        None => b,
    };
    let kept = m.buckets.restrict(Set::new(|k: int| within(k, newest, span)));
    WindowModel {
        newest: Some(newest),
        buckets: if within(b, newest, span) {
            kept.insert(b, bucket_add(bucket_or_none(kept, b), status, latency))
        } else {
            kept
        },
    }
}

/// Whether one more sample can be counted: its time stamp is not negative,
/// and its bucket, where it exists, has room in its counters.
pub open spec fn has_room(m: WindowModel, step: int, ts: int, latency: u64) -> bool {
    &&& ts >= 0
    &&& m.buckets.contains_key(bucket_start(ts, step)) ==> {
        let t = m.buckets[bucket_start(ts, step)].tally;
        t.count < i64::MAX && t.latency_sum + latency <= u64::MAX
    }
}

/// One bucket of a series.
pub struct Bucket {
    start: i64,
    count: i64,
    s2xx: i64,
    s3xx: i64,
    s4xx: i64,
    s5xx: i64,
    s0: i64,
    latency_sum: u64,
    latency_max: u64,
    samples: Vec<u64>,
}

impl Bucket {
    /// The second at which the bucket starts.
    pub closed spec fn start(&self) -> int {
        self.start as int
    }

    /// The bucket as the contracts see it.
    pub closed spec fn model(&self) -> BucketModel {
        BucketModel {
            tally: Tally {
                count: self.count as int,
                s2xx: self.s2xx as int,
                s3xx: self.s3xx as int,
                s4xx: self.s4xx as int,
                s5xx: self.s5xx as int,
                s0: self.s0 as int,
                latency_sum: self.latency_sum as int,
                latency_max: self.latency_max as int,
            },
            samples: self.samples@,
        }
    }

    /// The bucket is in order: it has counted at least one request, every
    /// request in exactly one class, and it keeps one sample for each request
    /// up to the capacity.
    pub closed spec fn wf(&self) -> bool {
        &&& self.start >= 0
        &&& self.count >= 1
        &&& self.s2xx >= 0 && self.s3xx >= 0 && self.s4xx >= 0 && self.s5xx >= 0 && self.s0 >= 0
        &&& self.s2xx + self.s3xx + self.s4xx + self.s5xx + self.s0 == self.count
        &&& self.latency_max <= self.latency_sum
        &&& self.samples@.len() == if self.count < RESERVOIR_CAPACITY {
            self.count as int
        } else {
            RESERVOIR_CAPACITY as int
        }
    }

    fn first(start: i64, status: i32, latency: u64) -> (b: Bucket)
        requires
            start >= 0,
        ensures
            b.wf(),
            b.start() == start,
            b.model() == bucket_add(no_bucket(), status as int, latency),
    {
        let class = status_class(status);
        let mut samples: Vec<u64> = Vec::new();
        samples.push(latency);
        Bucket {
            start,
            count: 1,
            s2xx: if class == StatusClass::Success {
                1
            } else {
                0
            },
            s3xx: if class == StatusClass::Redirect {
                1
            } else {
                0
            },
            s4xx: if class == StatusClass::ClientError {
                1
            } else {
                0
            },
            s5xx: if class == StatusClass::ServerError {
                1
            } else {
                0
            },
            s0: if class == StatusClass::Failure {
                1
            } else {
                0
            },
            latency_sum: latency,
            latency_max: latency,
            samples,
        }
    }

    fn full(&self, latency: u64) -> (full: bool)
        ensures
            full == !(self.model().tally.count < i64::MAX && self.model().tally.latency_sum + latency
                <= u64::MAX),
    {
        self.count == i64::MAX || latency > u64::MAX - self.latency_sum
    }

    fn add(&mut self, status: i32, latency: u64)
        requires
            old(self).wf(),
            old(self).model().tally.count < i64::MAX,
            old(self).model().tally.latency_sum + latency <= u64::MAX,
        ensures
            final(self).wf(),
            final(self).start() == old(self).start(),
            final(self).model() == bucket_add(old(self).model(), status as int, latency),
    {
        let class = status_class(status);
        if self.samples.len() < RESERVOIR_CAPACITY {
            self.samples.push(latency);
        } else {
            let slot = (self.count % (RESERVOIR_CAPACITY as i64)) as usize;
            self.samples.set(slot, latency);
        }
        match class {
            StatusClass::Success => {
                self.s2xx = self.s2xx + 1;
            },
            StatusClass::Redirect => {
                self.s3xx = self.s3xx + 1;
            },
            StatusClass::ClientError => {
                self.s4xx = self.s4xx + 1;
            },
            StatusClass::ServerError => {
                self.s5xx = self.s5xx + 1;
            },
            StatusClass::Failure => {
                self.s0 = self.s0 + 1;
            },
        }
        self.count = self.count + 1;
        self.latency_sum = self.latency_sum + latency;
        if latency > self.latency_max {
            self.latency_max = latency;
        }
    }
}

/// `bs` has a bucket that starts at `k`.
pub open spec fn holds(bs: Seq<Bucket>, k: int) -> bool {
    exists|i: int| 0 <= i < bs.len() && (#[trigger] bs[i]).start() == k
}

/// The place of the bucket that starts at `k`.
pub open spec fn place_of(bs: Seq<Bucket>, k: int) -> int {
    choose|i: int| 0 <= i < bs.len() && (#[trigger] bs[i]).start() == k
}

/// The buckets stand in ascending order of their starts.
pub open spec fn ascending_starts(bs: Seq<Bucket>) -> bool {
    forall|i: int, j: int|
        0 <= i < j < bs.len() ==> (#[trigger] bs[i]).start() < (#[trigger] bs[j]).start()
}

/// The series that the buckets make up.
pub open spec fn model_of(bs: Seq<Bucket>) -> WindowModel {
    WindowModel {
        newest: if bs.len() == 0 {
            None
        } else {
            Some(bs.last().start())
        },
        buckets: Map::new(|k: int| holds(bs, k), |k: int| bs[place_of(bs, k)].model()),
    }
}

/// The buckets stand in ascending order, each is in order, and each lies
/// within the span before the last.
pub open spec fn buckets_wf(bs: Seq<Bucket>, span: int) -> bool {
    &&& ascending_starts(bs)
    &&& forall|i: int| 0 <= i < bs.len() ==> (#[trigger] bs[i]).wf()
    &&& forall|i: int| 0 <= i < bs.len() ==> within((#[trigger] bs[i]).start(), bs.last().start(), span)
}

/// A series of buckets of `step` seconds each, reaching `span` seconds back
/// from the newest bucket.
pub struct Window {
    span: i64,
    step: i64,
    buckets: Vec<Bucket>,
}

impl Window {
    /// The seconds that the series reaches back.
    pub closed spec fn span(&self) -> int {
        self.span as int
    }

    /// The seconds of one bucket.
    pub closed spec fn step(&self) -> int {
        self.step as int
    }

    /// The series as the contracts see it.
    pub closed spec fn model(&self) -> WindowModel {
        model_of(self.buckets@)
    }

    /// The series is in order: span and step are positive and the buckets are
    /// in order.
    pub closed spec fn wf(&self) -> bool {
        &&& self.span > 0
        &&& self.step > 0
        &&& buckets_wf(self.buckets@, self.span as int)
    }

    /// An empty series. A span or step that is not positive counts as 1.
    pub fn new(span_seconds: i64, step_seconds: i64) -> (w: Window)
        ensures
            w.wf(),
            w.span() == if span_seconds > 0 {
                span_seconds as int
            } else {
                1
            },
            w.step() == if step_seconds > 0 {
                step_seconds as int
            } else {
                1
            },
            w.model().newest is None,
            w.model().buckets == Map::<int, BucketModel>::empty(),
    {
        let w = Window {
            span: if span_seconds > 0 {
                span_seconds
            } else {
                1
            },
            step: if step_seconds > 0 {
                step_seconds
            } else {
                1
            },
            buckets: Vec::new(),
        };
        w
    }

    /// Whether one more sample can be counted.
    pub fn can_record(&self, timestamp: i64, latency_us: u64) -> (ok: bool)
        requires
            self.wf(),
        ensures
            ok == has_room(self.model(), self.step(), timestamp as int, latency_us),
    {
        if timestamp < 0 {
            return false;
        }
        let b = timestamp - timestamp % self.step;
        let mut i: usize = 0;
        while i < self.buckets.len()
            invariant
                self.wf(),
                b == bucket_start(timestamp as int, self.step()),
                timestamp >= 0,
                i <= self.buckets.len(),
                forall|k: int| 0 <= k < i ==> (#[trigger] self.buckets@[k]).start() != b,
            decreases self.buckets.len() - i,
        {
            if self.buckets[i].start == b {
                return !self.buckets[i].full(latency_us);
            }
            i += 1;
        }
        true
    }

    /// Counts one request. The time stamp decides the bucket; buckets older
    /// than the span before the newest are dropped; a sample older than that is
    /// dropped with them.
    ///
    /// Returns `false`, and changes nothing, where the sample cannot be
    /// counted: the time stamp is negative, or a counter of its bucket is full.
    pub fn record(&mut self, timestamp: i64, status: i32, latency_us: u64) -> (stored: bool)
        requires
            old(self).wf(),
        ensures
            final(self).wf(),
            final(self).span() == old(self).span(),
            final(self).step() == old(self).step(),
            stored == has_room(old(self).model(), old(self).step(), timestamp as int, latency_us),
            stored ==> final(self).model() == record_model(
                old(self).model(),
                old(self).span(),
                old(self).step(),
                timestamp as int,
                status as int,
                latency_us,
            ),
            !stored ==> final(self).model() == old(self).model(),
    {
        if timestamp < 0 {
            return false;
        }
        proof {
            lemma_bucket_start(timestamp as int, self.step as int);
        }
        let b = timestamp - timestamp % self.step;
        let n = self.buckets.len();
        let ghost before = self.buckets@;
        let ghost span = self.span as int;
        let ghost target = record_model(
            model_of(before),
            span,
            self.step as int,
            timestamp as int,
            status as int,
            latency_us,
        );
        if n == 0 {
            let nb = Bucket::first(b, status, latency_us);
            self.buckets.push(nb);
            proof {
                let after = self.buckets@;
                assert(model_of(after).buckets =~= target.buckets);
            }
            return true;
        }
        let last = self.buckets[n - 1].start;
        if b > last {
            let mut p: usize = 0;
            while p < n && b - self.buckets[p].start >= self.span
                invariant
                    n == self.buckets.len(),
                    self.buckets@ == before,
                    buckets_wf(before, span),
                    span == self.span,
                    b > before.last().start(),
                    b >= 0,
                    p <= n,
                    forall|k: int| 0 <= k < p ==> !within((#[trigger] before[k]).start(), b as int, span),
                decreases n - p,
            {
                p += 1;
            }
            let mut kept = self.buckets.split_off(p);
            let nb = Bucket::first(b, status, latency_us);
            kept.push(nb);
            self.buckets = kept;
            proof {
                let after = self.buckets@;
                lemma_model_after_append(before, after, p as int, b as int, span);
            }
            true
        } else {
            if last - b >= self.span {
                proof {
                    assert(!holds(before, b as int));
                    assert(model_of(before).buckets.restrict(
                        Set::new(|k: int| within(k, last as int, span)),
                    ) =~= model_of(before).buckets);
                }
                return true;
            }
            let mut i: usize = 0;
            while i < n && self.buckets[i].start < b
                invariant
                    n == self.buckets.len(),
                    self.buckets@ == before,
                    buckets_wf(before, span),
                    b <= before.last().start(),
                    n > 0,
                    i <= n,
                    forall|k: int| 0 <= k < i ==> (#[trigger] before[k]).start() < b,
                decreases n - i,
            {
                i += 1;
            }
            proof {
                assert(model_of(before).buckets.restrict(
                    Set::new(|k: int| within(k, last as int, span)),
                ) =~= model_of(before).buckets) by {
                    assert forall|k: int| holds(before, k) implies within(k, last as int, span) by {}
                }
            }
            if self.buckets[i].start == b {
                if self.buckets[i].full(latency_us) {
                    return false;
                }
                self.buckets[i].add(status, latency_us);
                proof {
                    let after = self.buckets@;
                    lemma_model_after_update(before, after, i as int);
                }
                true
            } else {
                let nb = Bucket::first(b, status, latency_us);
                self.buckets.insert(i, nb);
                proof {
                    let after = self.buckets@;
                    assert(!holds(before, b as int));
                    lemma_model_after_insert(before, after, i as int, span);
                }
                true
            }
        }
    }
}

/// The buckets of a series, one entry in each list for each bucket, in
/// ascending order of time. Latencies are in microseconds.
#[derive(Debug, Clone)]
pub struct MetricsSeries {
    pub timestamps: Vec<i64>,
    pub counts: Vec<i64>,
    pub s2xx: Vec<i64>,
    pub s3xx: Vec<i64>,
    pub s4xx: Vec<i64>,
    pub s5xx: Vec<i64>,
    pub s0: Vec<i64>,
    /// The mean latency of each bucket, rounded down.
    pub avg_latency: Vec<u64>,
    pub max_latency: Vec<u64>,
    pub p95: Vec<u64>,
    pub p99: Vec<u64>,
}

/// The tally adds up: it has counted at least one request, and every request
/// in exactly one class.
pub open spec fn adds_up(t: Tally) -> bool {
    &&& t.count >= 1
    &&& t.s2xx >= 0 && t.s3xx >= 0 && t.s4xx >= 0 && t.s5xx >= 0 && t.s0 >= 0
    &&& t.s2xx + t.s3xx + t.s4xx + t.s5xx + t.s0 == t.count
}

/// Every bucket of the series adds up.
pub open spec fn all_add_up(m: WindowModel) -> bool {
    forall|k: int| m.buckets.contains_key(k) ==> adds_up(#[trigger] m.buckets[k].tally)
}

/// In every entry of the lists the count is the sum of the five classes, and
/// at least 1.
pub open spec fn lists_add_up(s: MetricsSeries) -> bool {
    forall|i: int|
        0 <= i < s.counts@.len() ==> #[trigger] s.counts@[i] >= 1 && s.counts@[i] == s.s2xx@[i]
            + s.s3xx@[i] + s.s4xx@[i] + s.s5xx@[i] + s.s0@[i]
}

/// Lists that show a series whose buckets add up add up themselves.
pub proof fn lemma_lists_add_up(s: MetricsSeries, m: WindowModel)
    requires
        series_shows(s, m),
        all_add_up(m),
    ensures
        lists_add_up(s),
{
    assert forall|i: int| 0 <= i < s.counts@.len() implies #[trigger] s.counts@[i] >= 1
        && s.counts@[i] == s.s2xx@[i] + s.s3xx@[i] + s.s4xx@[i] + s.s5xx@[i] + s.s0@[i] by {
        let k = s.timestamps@[i] as int;
        assert(m.buckets.contains_key(k));
        assert(entry_shows(s, i, m.buckets[k]));
        assert(adds_up(m.buckets[k].tally));
    }
}

/// The entry at place `i` of the lists says what the bucket `b` counted.
pub open spec fn entry_shows(s: MetricsSeries, i: int, b: BucketModel) -> bool {
    &&& s.counts@[i] == b.tally.count
    &&& s.s2xx@[i] == b.tally.s2xx
    &&& s.s3xx@[i] == b.tally.s3xx
    &&& s.s4xx@[i] == b.tally.s4xx
    &&& s.s5xx@[i] == b.tally.s5xx
    &&& s.s0@[i] == b.tally.s0
    &&& s.avg_latency@[i] == b.tally.latency_sum / b.tally.count
    &&& s.max_latency@[i] == b.tally.latency_max
    &&& s.p95@[i] == percentile_of(b.samples, 95)
    &&& s.p99@[i] == percentile_of(b.samples, 99)
}

/// All lists have the length `n`.
pub open spec fn lists_have_len(s: MetricsSeries, n: int) -> bool {
    &&& s.timestamps@.len() == n
    &&& s.counts@.len() == n
    &&& s.s2xx@.len() == n
    &&& s.s3xx@.len() == n
    &&& s.s4xx@.len() == n
    &&& s.s5xx@.len() == n
    &&& s.s0@.len() == n
    &&& s.avg_latency@.len() == n
    &&& s.max_latency@.len() == n
    &&& s.p95@.len() == n
    &&& s.p99@.len() == n
}

/// The lists show the series `m`: one entry for each of its buckets and no
/// other, in ascending order of time, each with what its bucket counted.
pub open spec fn series_shows(s: MetricsSeries, m: WindowModel) -> bool {
    &&& lists_have_len(s, s.timestamps@.len() as int)
    &&& forall|i: int, j: int|
        0 <= i < j < s.timestamps@.len() ==> #[trigger] s.timestamps@[i] < #[trigger] s.timestamps@[j]
    &&& forall|k: int|
        m.buckets.contains_key(k) <==> exists|i: int|
            0 <= i < s.timestamps@.len() && #[trigger] s.timestamps@[i] == k
    &&& forall|i: int|
        0 <= i < s.timestamps@.len() ==> m.buckets.contains_key(#[trigger] s.timestamps@[i] as int)
            && entry_shows(s, i, m.buckets[s.timestamps@[i] as int])
}

impl Window {
    /// A series in order holds buckets that add up: each has counted at least
    /// one request, and its count is the sum of its five classes.
    pub proof fn lemma_buckets_add_up(&self)
        requires
            self.wf(),
        ensures
            all_add_up(self.model()),
    {
        let bs = self.buckets@;
        assert forall|k: int| self.model().buckets.contains_key(k) implies adds_up(
            #[trigger] self.model().buckets[k].tally,
        ) by {
            let i = place_of(bs, k);
            assert(bs[i].wf());
        }
    }

    /// How many buckets the series holds.
    pub fn len(&self) -> (n: usize)
        requires
            self.wf(),
        ensures
            n == self.model().buckets.dom().len(),
            self.model().buckets.dom().finite(),
    {
        proof {
            lemma_dom_len(self.buckets@);
        }
        self.buckets.len()
    }

    /// The series as lists, for display.
    pub fn series(&self) -> (s: MetricsSeries)
        requires
            self.wf(),
        ensures
            series_shows(s, self.model()),
    {
        let mut s = MetricsSeries {
            timestamps: Vec::new(),
            counts: Vec::new(),
            s2xx: Vec::new(),
            s3xx: Vec::new(),
            s4xx: Vec::new(),
            s5xx: Vec::new(),
            s0: Vec::new(),
            avg_latency: Vec::new(),
            max_latency: Vec::new(),
            p95: Vec::new(),
            p99: Vec::new(),
        };
        let mut i: usize = 0;
        while i < self.buckets.len()
            invariant
                self.wf(),
                i <= self.buckets.len(),
                lists_have_len(s, i as int),
                forall|k: int| 0 <= k < i ==> #[trigger] s.timestamps@[k] == self.buckets@[k].start(),
                forall|k: int| 0 <= k < i ==> entry_shows(s, k, (#[trigger] self.buckets@[k]).model()),
            decreases self.buckets.len() - i,
        {
            let b = &self.buckets[i];
            let tails = tail_latencies(&b.samples);
            s.timestamps.push(b.start);
            s.counts.push(b.count);
            s.s2xx.push(b.s2xx);
            s.s3xx.push(b.s3xx);
            s.s4xx.push(b.s4xx);
            s.s5xx.push(b.s5xx);
            s.s0.push(b.s0);
            s.avg_latency.push(b.latency_sum / (b.count as u64));
            s.max_latency.push(b.latency_max);
            s.p95.push(tails.0);
            s.p99.push(tails.1);
            i += 1;
        }
        proof {
            let bs = self.buckets@;
            let m = self.model();
            assert forall|k: int| m.buckets.contains_key(k) <==> exists|i: int|
                0 <= i < s.timestamps@.len() && #[trigger] s.timestamps@[i] == k by {
                if m.buckets.contains_key(k) {
                    let j = place_of(bs, k);
                    assert(s.timestamps@[j] == k);
                }
            }
        }
        s
    }
}

/// A series in ascending order has as many buckets as starts.
pub proof fn lemma_dom_len(bs: Seq<Bucket>)
    requires
        ascending_starts(bs),
    ensures
        model_of(bs).buckets.dom().finite(),
        model_of(bs).buckets.dom().len() == bs.len(),
    decreases bs.len(),
{
    let dom = model_of(bs).buckets.dom();
    if bs.len() == 0 {
        assert(dom =~= Set::<int>::empty());
    } else {
        let shorter = bs.drop_last();
        assert(ascending_starts(shorter)) by {}
        lemma_dom_len(shorter);
        let sdom = model_of(shorter).buckets.dom();
        let k = bs.last().start();
        assert(!sdom.contains(k));
        assert(dom =~= sdom.insert(k)) by {
            assert forall|x: int| dom.contains(x) <==> sdom.insert(k).contains(x) by {
                if holds(bs, x) {
                    let i = place_of(bs, x);
                    if i < bs.len() - 1 {
                        assert(shorter[i].start() == x);
                    }
                }
            }
        }
    }
}

proof fn lemma_model_after_append(before: Seq<Bucket>, after: Seq<Bucket>, p: int, b: int, span: int)
    requires
        buckets_wf(before, span),
        before.len() > 0,
        0 <= p <= before.len(),
        after.len() == before.len() - p + 1,
        forall|k: int| 0 <= k < before.len() - p ==> after[k] == before[k + p],
        after.last().start() == b,
        after.last().wf(),
        b > before.last().start(),
        forall|k: int| 0 <= k < p ==> !within((#[trigger] before[k]).start(), b, span),
        forall|k: int| p <= k < before.len() ==> within((#[trigger] before[k]).start(), b, span),
        span > 0,
    ensures
        buckets_wf(after, span),
        model_of(after).newest == Some(b),
        model_of(after).buckets =~= model_of(before).buckets.restrict(
            Set::new(|k: int| within(k, b, span)),
        ).insert(b, after.last().model()),
{
    assert forall|i: int, j: int| 0 <= i < j < after.len() implies (#[trigger] after[i]).start() < (
    #[trigger] after[j]).start() by {}
    assert forall|i: int| 0 <= i < after.len() implies (#[trigger] after[i]).wf() by {}
    let want = model_of(before).buckets.restrict(Set::new(|k: int| within(k, b, span))).insert(
        b,
        after.last().model(),
    );
    assert forall|k: int| model_of(after).buckets.contains_key(k) <==> want.contains_key(k) by {
        if want.contains_key(k) && k != b {
            let j = place_of(before, k);
            assert(after[j - p].start() == k);
        }
    }
    assert forall|k: int| model_of(after).buckets.contains_key(k) implies model_of(after).buckets[k]
        == want[k] by {}
}

proof fn lemma_model_after_update(before: Seq<Bucket>, after: Seq<Bucket>, i: int)
    requires
        ascending_starts(before),
        0 <= i < before.len(),
        after.len() == before.len(),
        forall|k: int| 0 <= k < before.len() && k != i ==> after[k] == before[k],
        after[i].start() == before[i].start(),
    ensures
        ascending_starts(after),
        model_of(after).newest == model_of(before).newest,
        model_of(after).buckets =~= model_of(before).buckets.insert(
            before[i].start(),
            after[i].model(),
        ),
{
    let want = model_of(before).buckets.insert(before[i].start(), after[i].model());
    assert forall|k: int| model_of(after).buckets.contains_key(k) <==> want.contains_key(k) by {}
}

proof fn lemma_model_after_insert(before: Seq<Bucket>, after: Seq<Bucket>, i: int, span: int)
    requires
        buckets_wf(before, span),
        0 <= i < before.len(),
        after == before.insert(i, after[i]),
        after[i].wf(),
        forall|k: int| 0 <= k < i ==> (#[trigger] before[k]).start() < after[i].start(),
        after[i].start() < before[i].start(),
        within(after[i].start(), before.last().start(), span),
    ensures
        buckets_wf(after, span),
        model_of(after).newest == model_of(before).newest,
        model_of(after).buckets =~= model_of(before).buckets.insert(
            after[i].start(),
            after[i].model(),
        ),
{
    let nb = after[i];
    assert forall|k: int| 0 <= k < after.len() implies (#[trigger] after[k]).wf() && within(
        after[k].start(),
        after.last().start(),
        span,
    ) by {}
    let want = model_of(before).buckets.insert(nb.start(), nb.model());
    assert forall|k: int| model_of(after).buckets.contains_key(k) <==> want.contains_key(k) by {
        if holds(before, k) {
            let j = place_of(before, k);
            if j < i {
                assert(after[j].start() == k);
            } else {
                assert(after[j + 1].start() == k);
            }
        }
    }
    assert forall|k: int| model_of(after).buckets.contains_key(k) implies model_of(after).buckets[k]
        == want[k] by {}
}

/// One request as the laws see it.
pub struct SampleModel {
    pub ts: int,
    pub status: int,
    pub latency: u64,
}

/// The tallies of a series, without the latency samples.
pub open spec fn tallies(m: WindowModel) -> Map<int, Tally> {
    m.buckets.map_values(|b: BucketModel| b.tally)
}

/// The series after the samples of `xs` were recorded in their order.
pub open spec fn recorded(m: WindowModel, span: int, step: int, xs: Seq<SampleModel>) -> WindowModel
    decreases xs.len(),
{
    if xs.len() == 0 {
        m
    } else {
        record_model(
            recorded(m, span, step, xs.drop_last()),
            span,
            step,
            xs.last().ts,
            xs.last().status,
            xs.last().latency,
        )
    }
}

/// A series without buckets.
pub open spec fn empty_window() -> WindowModel {
    WindowModel { newest: None, buckets: Map::empty() }
}

/// How many samples of `xs` lie in the bucket that starts at `k`.
pub open spec fn count_in(xs: Seq<SampleModel>, step: int, k: int) -> int
    decreases xs.len(),
{
    if xs.len() == 0 {
        0
    } else {
        count_in(xs.drop_last(), step, k) + one_if(bucket_start(xs.last().ts, step) == k)
    }
}

/// The start of the newest bucket among the samples of `xs`.
pub open spec fn newest_in(xs: Seq<SampleModel>, step: int) -> Option<int>
    decreases xs.len(),
{
    if xs.len() == 0 {
        None
    } else {
        let b = bucket_start(xs.last().ts, step);
        match newest_in(xs.drop_last(), step) {
            Some(n) => if n >= b {
                Some(n)
            } else {
                Some(b)
            },
            None => Some(b),
        }
    }
}

/// The first request of a series makes one bucket, which has counted that
/// request alone, in the class of its status.
pub proof fn lemma_first_record(span: int, step: int, ts: int, status: int, latency: u64)
    requires
        span > 0,
    ensures
        ({
            let m = record_model(empty_window(), span, step, ts, status, latency);
            let b = bucket_start(ts, step);
            &&& m.newest == Some(b)
            &&& m.buckets.dom() =~= set![b]
            &&& m.buckets[b].tally == tally_add(no_tally(), status, latency as int)
            &&& m.buckets[b].tally.count == 1
            &&& m.buckets[b].tally.s4xx == one_if(400 <= status <= 499)
            &&& m.buckets[b].tally.s2xx == one_if(200 <= status <= 299)
        }),
{
}

/// The order of arrival is irrelevant: two samples recorded in either order
/// leave the same newest bucket and the same tallies.
pub proof fn lemma_record_order_irrelevant(
    m: WindowModel,
    span: int,
    step: int,
    a: SampleModel,
    b: SampleModel,
)
    ensures
        ({
            let ab = record_model(
                record_model(m, span, step, a.ts, a.status, a.latency),
                span,
                step,
                b.ts,
                b.status,
                b.latency,
            );
            let ba = record_model(
                record_model(m, span, step, b.ts, b.status, b.latency),
                span,
                step,
                a.ts,
                a.status,
                a.latency,
            );
            ab.newest == ba.newest && tallies(ab) == tallies(ba)
        }),
{
    let ab = record_model(
        record_model(m, span, step, a.ts, a.status, a.latency),
        span,
        step,
        b.ts,
        b.status,
        b.latency,
    );
    let ba = record_model(
        record_model(m, span, step, b.ts, b.status, b.latency),
        span,
        step,
        a.ts,
        a.status,
        a.latency,
    );
}

/// Totals equal what was recorded: after any samples were recorded into an
/// empty series, in whatever order they came, each bucket within the span
/// before the newest has counted exactly the samples that lie in it, and no
/// other bucket is kept.
pub proof fn lemma_counts_equal_samples(span: int, step: int, xs: Seq<SampleModel>)
    ensures
        recorded(empty_window(), span, step, xs).newest == newest_in(xs, step),
        forall|k: int|
            #![trigger recorded(empty_window(), span, step, xs).buckets.contains_key(k)]
            recorded(empty_window(), span, step, xs).buckets.contains_key(k) <==> newest_in(
                xs,
                step,
            ) is Some && within(k, newest_in(xs, step)->0, span) && count_in(xs, step, k) > 0,
        forall|k: int|
            #![trigger recorded(empty_window(), span, step, xs).buckets[k]]
            recorded(empty_window(), span, step, xs).buckets.contains_key(k) ==> recorded(
                empty_window(),
                span,
                step,
                xs,
            ).buckets[k].tally.count == count_in(xs, step, k),
        forall|k: int| count_in(xs, step, k) >= 0,
    decreases xs.len(),
{
    if xs.len() > 0 {
        lemma_counts_equal_samples(span, step, xs.drop_last());
        let prev = recorded(empty_window(), span, step, xs.drop_last());
        let now = recorded(empty_window(), span, step, xs);
        assert forall|k: int| count_in(xs, step, k) >= 0 by {
            assert(count_in(xs.drop_last(), step, k) >= 0);
        }
        assert forall|k: int| #![trigger now.buckets.contains_key(k)] now.buckets.contains_key(k)
            <==> newest_in(xs, step) is Some && within(k, newest_in(xs, step)->0, span) && count_in(
            xs,
            step,
            k,
        ) > 0 by {
            assert(prev.buckets.contains_key(k) <==> newest_in(xs.drop_last(), step) is Some
                && within(k, newest_in(xs.drop_last(), step)->0, span) && count_in(
                xs.drop_last(),
                step,
                k,
            ) > 0);
        }
        assert forall|k: int| #![trigger now.buckets[k]] now.buckets.contains_key(k) implies now.buckets[k].tally.count
            == count_in(xs, step, k) by {
            assert(prev.buckets.contains_key(k) <==> newest_in(xs.drop_last(), step) is Some
                && within(k, newest_in(xs.drop_last(), step)->0, span) && count_in(
                xs.drop_last(),
                step,
                k,
            ) > 0);
            if prev.buckets.contains_key(k) {
                assert(prev.buckets[k].tally.count == count_in(xs.drop_last(), step, k));
            }
        }
    }
}

/// What the samples of `xs` that lie in the bucket starting at `k` add up to.
pub open spec fn tally_in(xs: Seq<SampleModel>, step: int, k: int) -> Tally
    decreases xs.len(),
{
    if xs.len() == 0 {
        no_tally()
    } else {
        counted(tally_in(xs.drop_last(), step, k), xs.last(), step, k)
    }
}

/// The tally of the bucket starting at `k` after one more sample: the sample
/// is counted where it lies in the bucket.
pub open spec fn counted(t: Tally, x: SampleModel, step: int, k: int) -> Tally {
    if bucket_start(x.ts, step) == k {
        tally_add(t, x.status, x.latency as int)
    } else {
        t
    }
}

/// The later of the newest bucket so far and the bucket of one more sample.
pub open spec fn newer(n: Option<int>, x: SampleModel, step: int) -> Option<int> {
    let b = bucket_start(x.ts, step);
    match n {
        Some(n) => if n >= b {
            Some(n)
        } else {
            Some(b)
        },
        None => Some(b),
    }
}

/// Each bucket of a series holds what the samples that lie in it add up to:
/// count, classes, and the sum and the greatest of the latencies.
pub proof fn lemma_tallies_equal_samples(span: int, step: int, xs: Seq<SampleModel>)
    ensures
        forall|k: int|
            #![trigger recorded(empty_window(), span, step, xs).buckets[k]]
            recorded(empty_window(), span, step, xs).buckets.contains_key(k) ==> recorded(
                empty_window(),
                span,
                step,
                xs,
            ).buckets[k].tally == tally_in(xs, step, k),
        forall|k: int| (#[trigger] tally_in(xs, step, k)).count == count_in(xs, step, k),
    decreases xs.len(),
{
    lemma_counts_equal_samples(span, step, xs);
    if xs.len() > 0 {
        lemma_tallies_equal_samples(span, step, xs.drop_last());
        lemma_counts_equal_samples(span, step, xs.drop_last());
        let prev = recorded(empty_window(), span, step, xs.drop_last());
        let now = recorded(empty_window(), span, step, xs);
        assert forall|k: int| (#[trigger] tally_in(xs, step, k)).count == count_in(xs, step, k) by {
            assert(tally_in(xs.drop_last(), step, k).count == count_in(xs.drop_last(), step, k));
        }
        assert forall|k: int| #![trigger now.buckets[k]] now.buckets.contains_key(k) implies now.buckets[k].tally
            == tally_in(xs, step, k) by {
            assert(prev.buckets.contains_key(k) <==> newest_in(xs.drop_last(), step) is Some
                && within(k, newest_in(xs.drop_last(), step)->0, span) && count_in(
                xs.drop_last(),
                step,
                k,
            ) > 0);
            assert(tally_in(xs.drop_last(), step, k).count == count_in(xs.drop_last(), step, k));
            if prev.buckets.contains_key(k) {
                assert(prev.buckets[k].tally == tally_in(xs.drop_last(), step, k));
            } else {
                assert(count_in(xs.drop_last(), step, k) >= 0);
                lemma_nothing_counted(xs.drop_last(), step, k);
            }
        }
    }
}

/// A bucket in which no sample lies has counted nothing.
proof fn lemma_nothing_counted(xs: Seq<SampleModel>, step: int, k: int)
    ensures
        count_in(xs, step, k) >= 0,
        count_in(xs, step, k) == 0 ==> tally_in(xs, step, k) == no_tally(),
    decreases xs.len(),
{
    if xs.len() > 0 {
        lemma_nothing_counted(xs.drop_last(), step, k);
    }
}

/// Counting one sample and then another gives what counting them the other
/// way round gives.
proof fn lemma_counted_commutes(t: Tally, x: SampleModel, y: SampleModel, step: int, k: int)
    ensures
        counted(counted(t, x, step, k), y, step, k) == counted(counted(t, y, step, k), x, step, k),
        newer(newer(None, x, step), y, step) == newer(newer(None, y, step), x, step),
        forall|n: Option<int>| newer(newer(n, x, step), y, step) == newer(newer(n, y, step), x, step),
{
}

/// Taking one sample out of a list takes it out of what the list adds up to.
proof fn lemma_sample_taken_out(ys: Seq<SampleModel>, i: int, step: int, k: int)
    requires
        0 <= i < ys.len(),
    ensures
        tally_in(ys, step, k) == counted(tally_in(ys.remove(i), step, k), ys[i], step, k),
        newest_in(ys, step) == newer(newest_in(ys.remove(i), step), ys[i], step),
    decreases ys.len(),
{
    let rest = ys.remove(i);
    if i == ys.len() - 1 {
        assert(rest =~= ys.drop_last());
    } else {
        let z = ys.last();
        lemma_sample_taken_out(ys.drop_last(), i, step, k);
        assert(ys.drop_last().remove(i) =~= rest.drop_last());
        assert(rest.last() == z);
        assert(ys.drop_last()[i] == ys[i]);
        lemma_counted_commutes(tally_in(rest.drop_last(), step, k), ys[i], z, step, k);
        assert(newest_in(ys, step) == newer(newest_in(ys.drop_last(), step), z, step));
        assert(newest_in(rest, step) == newer(newest_in(rest.drop_last(), step), z, step));
    }
}

/// What samples add up to does not depend on their order: two lists of the
/// same samples give every bucket the same tally and the same newest bucket.
pub proof fn lemma_same_samples_same_tallies(
    xs: Seq<SampleModel>,
    ys: Seq<SampleModel>,
    step: int,
    k: int,
)
    requires
        xs.to_multiset() == ys.to_multiset(),
    ensures
        xs.len() == ys.len(),
        tally_in(xs, step, k) == tally_in(ys, step, k),
        count_in(xs, step, k) == count_in(ys, step, k),
        newest_in(xs, step) == newest_in(ys, step),
    decreases xs.len(),
{
    broadcast use vstd::seq_lib::group_to_multiset_ensures;

    xs.to_multiset_ensures();
    ys.to_multiset_ensures();
    lemma_tallies_equal_samples(1, step, xs);
    lemma_tallies_equal_samples(1, step, ys);
    if xs.len() > 0 {
        let x = xs.last();
        assert(xs.contains(x)) by {
            assert(xs[xs.len() - 1] == x);
        }
        assert(ys.to_multiset().count(x) > 0);
        assert(ys.contains(x));
        let i = choose|i: int| 0 <= i < ys.len() && ys[i] == x;
        let rest = ys.remove(i);
        vstd::seq_lib::to_multiset_remove(ys, i);
        assert(xs.drop_last().push(x) =~= xs);
        vstd::seq_lib::to_multiset_build(xs.drop_last(), x);
        assert(xs.drop_last().to_multiset() =~= xs.to_multiset().remove(x));
        lemma_same_samples_same_tallies(xs.drop_last(), rest, step, k);
        lemma_sample_taken_out(ys, i, step, k);
    }
}

/// Any order of arrival gives the same series: where two runs record the
/// same samples, in whatever order each, both end with the same newest
/// bucket and the same tallies in the same buckets.
pub proof fn lemma_recorded_in_any_order(
    span: int,
    step: int,
    xs: Seq<SampleModel>,
    ys: Seq<SampleModel>,
)
    requires
        xs.to_multiset() == ys.to_multiset(),
    ensures
        recorded(empty_window(), span, step, xs).newest == recorded(
            empty_window(),
            span,
            step,
            ys,
        ).newest,
        tallies(recorded(empty_window(), span, step, xs)) == tallies(
            recorded(empty_window(), span, step, ys),
        ),
{
    let a = recorded(empty_window(), span, step, xs);
    let b = recorded(empty_window(), span, step, ys);
    lemma_counts_equal_samples(span, step, xs);
    lemma_counts_equal_samples(span, step, ys);
    lemma_tallies_equal_samples(span, step, xs);
    lemma_tallies_equal_samples(span, step, ys);
    lemma_same_samples_same_tallies(xs, ys, step, 0);
    assert forall|k: int| a.buckets.contains_key(k) == b.buckets.contains_key(k) && (
    a.buckets.contains_key(k) ==> a.buckets[k].tally == b.buckets[k].tally) by {
        lemma_same_samples_same_tallies(xs, ys, step, k);
    }
    assert(tallies(a) =~= tallies(b));
}

/// The counts of the buckets that start at the seconds of `keys`, added up.
pub open spec fn sum_of_counts(m: WindowModel, keys: Seq<int>) -> int
    decreases keys.len(),
{
    if keys.len() == 0 {
        0
    } else {
        sum_of_counts(m, keys.drop_last()) + m.buckets[keys.last()].tally.count
    }
}

/// How many samples of `xs` lie in the buckets that start at the seconds of
/// `keys`, bucket by bucket.
pub open spec fn sum_of_samples(xs: Seq<SampleModel>, step: int, keys: Seq<int>) -> int
    decreases keys.len(),
{
    if keys.len() == 0 {
        0
    } else {
        sum_of_samples(xs, step, keys.drop_last()) + count_in(xs, step, keys.last())
    }
}

proof fn lemma_one_more_sample(xs: Seq<SampleModel>, x: SampleModel, step: int, keys: Seq<int>)
    requires
        keys.no_duplicates(),
    ensures
        sum_of_samples(xs.push(x), step, keys) == sum_of_samples(xs, step, keys) + one_if(
            keys.contains(bucket_start(x.ts, step)),
        ),
    decreases keys.len(),
{
    assert(xs.push(x).drop_last() =~= xs);
    if keys.len() > 0 {
        let b = bucket_start(x.ts, step);
        let shorter = keys.drop_last();
        lemma_one_more_sample(xs, x, step, shorter);
        if shorter.contains(b) {
            let j = choose|j: int| 0 <= j < shorter.len() && shorter[j] == b;
            assert(keys[j] == b);
            assert(keys.last() != b);
            assert(keys.contains(b));
        } else if keys.last() == b {
            assert(keys[keys.len() - 1] == b);
        } else {
            if keys.contains(b) {
                let j = choose|j: int| 0 <= j < keys.len() && keys[j] == b;
                assert(shorter[j] == b);
            }
        }
    }
}

/// Totals equal the number recorded: where `n` samples were recorded, in
/// whatever order, and all of them lie within the span before the newest, the
/// counts of the buckets add up to `n`. `keys` lists the buckets of the
/// series, each once.
pub proof fn lemma_counts_add_up_to_samples(
    span: int,
    step: int,
    xs: Seq<SampleModel>,
    keys: Seq<int>,
)
    requires
        keys.no_duplicates(),
        forall|k: int|
            keys.contains(k) <==> #[trigger] recorded(
                empty_window(),
                span,
                step,
                xs,
            ).buckets.contains_key(k),
        forall|i: int|
            0 <= i < xs.len() ==> within(
                bucket_start((#[trigger] xs[i]).ts, step),
                newest_in(xs, step)->0,
                span,
            ),
    ensures
        sum_of_counts(recorded(empty_window(), span, step, xs), keys) == xs.len(),
{
    let m = recorded(empty_window(), span, step, xs);
    lemma_counts_equal_samples(span, step, xs);
    lemma_sum_is_of_samples(m, xs, step, keys);
    assert forall|i: int| 0 <= i < xs.len() implies keys.contains(
        bucket_start((#[trigger] xs[i]).ts, step),
    ) by {
        lemma_sample_is_counted(xs, step, i);
        assert(m.buckets.contains_key(bucket_start(xs[i].ts, step)));
    }
    lemma_all_samples_listed(xs, step, keys, xs.len() as int);
    assert(xs.take(xs.len() as int) =~= xs);
}

/// A sample is counted in its bucket, and a list with a sample has a newest bucket.
proof fn lemma_sample_is_counted(xs: Seq<SampleModel>, step: int, i: int)
    requires
        0 <= i < xs.len(),
    ensures
        count_in(xs, step, bucket_start(xs[i].ts, step)) >= 1,
        newest_in(xs, step) is Some,
    decreases xs.len(),
{
    lemma_nothing_counted(xs.drop_last(), step, bucket_start(xs[i].ts, step));
    if i < xs.len() - 1 {
        lemma_sample_is_counted(xs.drop_last(), step, i);
    }
}

proof fn lemma_sum_is_of_samples(m: WindowModel, xs: Seq<SampleModel>, step: int, keys: Seq<int>)
    requires
        forall|k: int| keys.contains(k) ==> #[trigger] m.buckets.contains_key(k),
        forall|k: int|
            #![trigger m.buckets[k]]
            m.buckets.contains_key(k) ==> m.buckets[k].tally.count == count_in(xs, step, k),
    ensures
        sum_of_counts(m, keys) == sum_of_samples(xs, step, keys),
    decreases keys.len(),
{
    if keys.len() > 0 {
        let shorter = keys.drop_last();
        assert forall|k: int| shorter.contains(k) implies #[trigger] m.buckets.contains_key(k) by {
            let j = choose|j: int| 0 <= j < shorter.len() && shorter[j] == k;
            assert(keys[j] == k);
        }
        lemma_sum_is_of_samples(m, xs, step, shorter);
        assert(keys[keys.len() - 1] == keys.last());
        assert(keys.contains(keys.last()));
    }
}

proof fn lemma_all_samples_listed(xs: Seq<SampleModel>, step: int, keys: Seq<int>, n: int)
    requires
        keys.no_duplicates(),
        0 <= n <= xs.len(),
        forall|i: int| 0 <= i < xs.len() ==> keys.contains(bucket_start((#[trigger] xs[i]).ts, step)),
    ensures
        sum_of_samples(xs.take(n), step, keys) == n,
    decreases n,
{
    if n == 0 {
        lemma_no_samples(step, keys);
        assert(xs.take(0) =~= Seq::<SampleModel>::empty());
    } else {
        lemma_all_samples_listed(xs, step, keys, n - 1);
        assert(xs.take(n) =~= xs.take(n - 1).push(xs[n - 1]));
        lemma_one_more_sample(xs.take(n - 1), xs[n - 1], step, keys);
    }
}

proof fn lemma_no_samples(step: int, keys: Seq<int>)
    ensures
        sum_of_samples(Seq::<SampleModel>::empty(), step, keys) == 0,
    decreases keys.len(),
{
    if keys.len() > 0 {
        lemma_no_samples(step, keys.drop_last());
    }
}

/// The numbers of a list, added up.
pub open spec fn list_sum(s: Seq<i64>) -> int
    decreases s.len(),
{
    if s.len() == 0 {
        0
    } else {
        list_sum(s.drop_last()) + s.last()
    }
}

/// The starts of the buckets that the lists show, in their order.
pub open spec fn starts_of(s: MetricsSeries) -> Seq<int> {
    Seq::new(s.timestamps@.len(), |i: int| s.timestamps@[i] as int)
}

proof fn lemma_lists_sum_upto(s: MetricsSeries, m: WindowModel, n: int)
    requires
        series_shows(s, m),
        0 <= n <= s.timestamps@.len(),
    ensures
        list_sum(s.counts@.take(n)) == sum_of_counts(m, starts_of(s).take(n)),
    decreases n,
{
    if n > 0 {
        lemma_lists_sum_upto(s, m, n - 1);
        assert(s.counts@.take(n).drop_last() =~= s.counts@.take(n - 1));
        assert(starts_of(s).take(n).drop_last() =~= starts_of(s).take(n - 1));
        assert(starts_of(s).take(n).last() == s.timestamps@[n - 1] as int);
        assert(entry_shows(s, n - 1, m.buckets[s.timestamps@[n - 1] as int]));
    }
}

/// Lists that show a series name each of its buckets once, and their counts
/// add up to what the buckets have counted together.
pub proof fn lemma_lists_sum(s: MetricsSeries, m: WindowModel)
    requires
        series_shows(s, m),
    ensures
        starts_of(s).no_duplicates(),
        forall|k: int| starts_of(s).contains(k) <==> #[trigger] m.buckets.contains_key(k),
        list_sum(s.counts@) == sum_of_counts(m, starts_of(s)),
{
    let keys = starts_of(s);
    assert forall|i: int, j: int| 0 <= i < keys.len() && 0 <= j < keys.len() && i != j implies keys[i]
        != keys[j] by {
        if i < j {
            assert(s.timestamps@[i] < s.timestamps@[j]);
        } else {
            assert(s.timestamps@[j] < s.timestamps@[i]);
        }
    }
    assert forall|k: int| keys.contains(k) <==> #[trigger] m.buckets.contains_key(k) by {
        if keys.contains(k) {
            let i = choose|i: int| 0 <= i < keys.len() && keys[i] == k;
            assert(m.buckets.contains_key(s.timestamps@[i] as int));
        }
        if m.buckets.contains_key(k) {
            let i = choose|i: int| 0 <= i < s.timestamps@.len() && #[trigger] s.timestamps@[i] == k;
            assert(keys[i] == k);
        }
    }
    lemma_lists_sum_upto(s, m, s.timestamps@.len() as int);
    assert(s.counts@.take(s.timestamps@.len() as int) =~= s.counts@);
    assert(keys.take(s.timestamps@.len() as int) =~= keys);
}

/// What the display shows adds up: where `n` requests were recorded into a
/// series, in whatever order, all within the span before the newest, the
/// counts of the lists that show the series add up to `n`.
pub proof fn lemma_shown_counts_add_up(
    span: int,
    step: int,
    xs: Seq<SampleModel>,
    s: MetricsSeries,
)
    requires
        series_shows(s, recorded(empty_window(), span, step, xs)),
        forall|i: int|
            0 <= i < xs.len() ==> within(
                bucket_start((#[trigger] xs[i]).ts, step),
                newest_in(xs, step)->0,
                span,
            ),
    ensures
        list_sum(s.counts@) == xs.len(),
{
    lemma_lists_sum(s, recorded(empty_window(), span, step, xs));
    lemma_counts_add_up_to_samples(span, step, xs, starts_of(s));
}

} // verus!
