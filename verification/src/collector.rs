//! The recorder on the request path. Recording a request puts one entry into
//! a queue of bounded length and never waits; under overload the oldest
//! entries give way, so that the latest requests are the ones that count.
//! Off the request path the entries are counted by the aggregator and handed
//! to the writer of the request log.

use crate::aggregator::{place_of_addr, series_at, with_series, Aggregator, ListenerModel};
use crate::metrics::RequestLog;
use crate::queue::{pushed_dropping_oldest, BoundedQueue};
use crate::window::{has_room, record_model};
use vstd::prelude::*;
use vstd::string::*;

verus! {

/// The requests that were recorded and are not counted yet, oldest first.
pub struct Collector {
    pending: BoundedQueue<RequestLog>,
}

/// What one flush did.
#[derive(Debug, Clone, Copy, PartialEq, Eq, Structural)]
pub struct FlushReport {
    /// How many entries were taken out of the collector.
    pub taken: usize,
    /// How many of them the aggregator counted.
    pub counted: usize,
    /// How many of them the log queue took.
    pub logged: usize,
}

/// The spans and steps of the two series of every listener.
pub struct Spans {
    pub short_span: int,
    pub short_step: int,
    pub long_span: int,
    pub long_step: int,
}

/// The spans and steps that the aggregator was made with.
pub open spec fn spans_of(a: Aggregator) -> Spans {
    Spans {
        short_span: a.short_span(),
        short_step: a.short_step(),
        long_span: a.long_span(),
        long_step: a.long_step(),
    }
}

/// Both series of the entry's listener have room for the entry.
pub open spec fn countable(v: Seq<ListenerModel>, s: Spans, l: RequestLog) -> bool {
    let e = series_at(v, place_of_addr(v, l.listen_addr@), l.listen_addr@);
    has_room(e.short, s.short_step, l.timestamp as int, l.latency_us) && has_room(
        e.long,
        s.long_step,
        l.timestamp as int,
        l.latency_us,
    )
}

/// The series of all listeners after one more entry: counted in both series
/// of its listener where both have room, and else left out.
pub open spec fn counted_one(v: Seq<ListenerModel>, s: Spans, l: RequestLog) -> Seq<ListenerModel> {
    let i = place_of_addr(v, l.listen_addr@);
    let e = series_at(v, i, l.listen_addr@);
    if countable(v, s, l) {
        with_series(
            v,
            i,
            ListenerModel {
                addr: l.listen_addr@,
                short: record_model(
                    e.short,
                    s.short_span,
                    s.short_step,
                    l.timestamp as int,
                    l.status as int,
                    l.latency_us,
                ),
                long: record_model(
                    e.long,
                    s.long_span,
                    s.long_step,
                    l.timestamp as int,
                    l.status as int,
                    l.latency_us,
                ),
            },
        )
    } else {
        v
    }
}

/// The series of all listeners after the entries of `logs`, one after the other.
pub open spec fn counted_all(v: Seq<ListenerModel>, s: Spans, logs: Seq<RequestLog>) -> Seq<
    ListenerModel,
>
    decreases logs.len(),
{
    if logs.len() == 0 {
        v
    } else {
        counted_one(counted_all(v, s, logs.drop_last()), s, logs.last())
    }
}

/// How many entries of `logs` are counted when they come one after the other.
pub open spec fn count_of_counted(v: Seq<ListenerModel>, s: Spans, logs: Seq<RequestLog>) -> int
    decreases logs.len(),
{
    if logs.len() == 0 {
        0
    } else {
        count_of_counted(v, s, logs.drop_last()) + if countable(
            counted_all(v, s, logs.drop_last()),
            s,
            logs.last(),
        ) {
            1int
        } else {
            0
        }
    }
}

/// The smaller of two numbers.
pub open spec fn least(a: int, b: int) -> int {
    if a <= b {
        a
    } else {
        b
    }
}

impl Collector {
    /// The entries that wait, oldest first.
    pub closed spec fn view(&self) -> Seq<RequestLog> {
        self.pending@
    }

    /// The greatest number of entries that wait.
    pub closed spec fn capacity(&self) -> int {
        self.pending.capacity()
    }

    /// The collector is in order: it holds no more than its capacity.
    pub closed spec fn wf(&self) -> bool {
        self.pending.wf()
    }

    /// A collector that lets up to `capacity` entries wait; 0 counts as 1.
    pub fn new(capacity: usize) -> (c: Collector)
        ensures
            c.wf(),
            c@.len() == 0,
            c.capacity() == if capacity == 0 {
                1
            } else {
                capacity as int
            },
    {
        Collector { pending: BoundedQueue::new(capacity) }
    }

    /// How many entries wait.
    pub fn len(&self) -> (n: usize)
        ensures
            n == self@.len(),
    {
        self.pending.len()
    }

    /// Records one completed or rejected request. The entry is put last; where
    /// the collector is full the oldest entry is dropped for it, and returned.
    /// The entry has no identifier yet: its `id` is 0.
    pub fn record(
        &mut self,
        listen_addr: &str,
        timestamp: i64,
        status: i32,
        latency_us: u64,
        client_ip: &str,
        method: &str,
        path: &str,
    ) -> (dropped: Option<RequestLog>)
        requires
            old(self).wf(),
        ensures
            final(self).wf(),
            final(self).capacity() == old(self).capacity(),
            final(self)@.len() > 0,
            final(self)@ == pushed_dropping_oldest(
                old(self)@,
                old(self).capacity(),
                final(self)@.last(),
            ),
            ({
                let e = final(self)@.last();
                &&& e.id == 0
                &&& e.timestamp == timestamp
                &&& e.listen_addr@ == listen_addr@
                &&& e.method@ == method@
                &&& e.path@ == path@
                &&& e.status == status
                &&& e.latency_us == latency_us
                &&& e.client_ip@ == client_ip@
            }),
            dropped == if old(self)@.len() < old(self).capacity() {
                None
            } else {
                Some(old(self)@[0])
            },
    {
        let entry = RequestLog {
            id: 0,
            timestamp,
            listen_addr: String::from_str(listen_addr),
            method: String::from_str(method),
            path: String::from_str(path),
            status,
            latency_us,
            client_ip: String::from_str(client_ip),
        };
        self.pending.push_dropping_oldest(entry)
    }

    /// Takes up to `max` entries out, oldest first, has the aggregator count
    /// each, and hands each to the log queue. An entry that the aggregator
    /// cannot count is left out of the series; an entry for which the log
    /// queue has no room is not logged: the queue keeps what waits in it.
    pub fn flush(
        &mut self,
        aggregator: &mut Aggregator,
        log_queue: &mut BoundedQueue<RequestLog>,
        max: usize,
    ) -> (report: FlushReport)
        requires
            old(self).wf(),
            old(aggregator).wf(),
            old(log_queue).wf(),
        ensures
            final(self).wf(),
            final(aggregator).wf(),
            final(log_queue).wf(),
            final(self).capacity() == old(self).capacity(),
            final(log_queue).capacity() == old(log_queue).capacity(),
            spans_of(*final(aggregator)) == spans_of(*old(aggregator)),
            report.taken == least(max as int, old(self)@.len() as int),
            final(self)@ == old(self)@.skip(report.taken as int),
            final(aggregator)@ == counted_all(
                old(aggregator)@,
                spans_of(*old(aggregator)),
                old(self)@.take(report.taken as int),
            ),
            report.counted == count_of_counted(
                old(aggregator)@,
                spans_of(*old(aggregator)),
                old(self)@.take(report.taken as int),
            ),
            report.logged == least(
                report.taken as int,
                old(log_queue).capacity() - old(log_queue)@.len(),
            ),
            final(log_queue)@ == old(log_queue)@ + old(self)@.take(report.logged as int),
    {
        let batch = self.pending.take_batch(max);
        let ghost all = batch@;
        let ghost spans = spans_of(*old(aggregator));
        let ghost room = old(log_queue).capacity() - old(log_queue)@.len();
        let taken = batch.len();
        let mut counted: usize = 0;
        let mut logged: usize = 0;
        for entry in it: batch
            invariant
                it.seq() == all,
                taken == all.len(),
                aggregator.wf(),
                log_queue.wf(),
                log_queue.capacity() == old(log_queue).capacity(),
                spans_of(*aggregator) == spans,
                room == old(log_queue).capacity() - old(log_queue)@.len(),
                aggregator@ == counted_all(old(aggregator)@, spans, all.take(it.index() as int)),
                counted == count_of_counted(old(aggregator)@, spans, all.take(it.index() as int)),
                counted <= it.index(),
                logged == least(it.index() as int, room),
                log_queue@ == old(log_queue)@ + all.take(logged as int),
        {
            let ghost k = it.index() as int;
            proof {
                assert(all.take(k + 1).drop_last() =~= all.take(k));
            }
            if aggregator.record(
                entry.listen_addr.as_str(),
                entry.timestamp,
                entry.status,
                entry.latency_us,
            ) {
                counted += 1;
            }
            match log_queue.push_or_reject(entry) {
                None => {
                    logged += 1;
                },
                Some(_) => {},
            }
        }
        proof {
            assert(all.take(all.len() as int) =~= all);
        }
        FlushReport { taken, counted, logged }
    }
}

/// Counting in parts: whether recorded requests are counted in one go or in
/// two, the series come out the same.
pub proof fn lemma_counting_in_parts(
    v: Seq<ListenerModel>,
    s: Spans,
    first: Seq<RequestLog>,
    second: Seq<RequestLog>,
)
    ensures
        counted_all(v, s, first + second) == counted_all(counted_all(v, s, first), s, second),
        count_of_counted(v, s, first + second) == count_of_counted(v, s, first) + count_of_counted(
            counted_all(v, s, first),
            s,
            second,
        ),
    decreases second.len(),
{
    if second.len() > 0 {
        lemma_counting_in_parts(v, s, first, second.drop_last());
        assert((first + second).drop_last() =~= first + second.drop_last());
    }
}

} // verus!
