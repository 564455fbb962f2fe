//! The metrics of all listeners: for each listen address a short series for
//! the live view and a long one for trends, both fed by every request.

use crate::text::str_eq;
use crate::window::{
    all_add_up, empty_window, has_room, record_model, series_shows, MetricsSeries, Window,
    WindowModel,
};
use vstd::prelude::*;
use vstd::string::*;

verus! {

/// The span of the short series where none is configured: six hours.
pub const DEFAULT_SHORT_SPAN: i32 = 21600;

/// The span of the long series where none is configured: one day.
pub const DEFAULT_LONG_SPAN: i32 = 86400;

/// The seconds of one bucket where none are configured: one minute.
pub const DEFAULT_STEP: i32 = 60;

/// The two series of one listener.
pub struct ListenerSeries {
    addr: String,
    short: Window,
    long: Window,
}

/// The two series of one listener, as the contracts see them.
pub struct ListenerModel {
    pub addr: Seq<char>,
    pub short: WindowModel,
    pub long: WindowModel,
}

/// The series of all listeners, in the order in which the listeners first
/// reported a request.
pub struct Aggregator {
    short_span: i32,
    short_step: i32,
    long_span: i32,
    long_step: i32,
    listeners: Vec<ListenerSeries>,
}

/// The place of the listener `addr` in `v`, or the length of `v` where it is
/// not among them.
pub open spec fn place_of_addr(v: Seq<ListenerModel>, addr: Seq<char>) -> int
    decreases v.len(),
{
    if v.len() == 0 {
        0
    } else {
        let p = place_of_addr(v.drop_last(), addr);
        if p < v.len() - 1 {
            p
        } else if v.last().addr == addr {
            v.len() - 1
        } else {
            v.len() as int
        }
    }
}

/// The series of the listener at place `i`, or empty ones for a new listener.
pub open spec fn series_at(v: Seq<ListenerModel>, i: int, addr: Seq<char>) -> ListenerModel {
    if 0 <= i < v.len() {
        v[i]
    } else {
        ListenerModel { addr, short: empty_window(), long: empty_window() }
    }
}

/// `v` with the series at place `i` replaced, or with one more listener.
pub open spec fn with_series(v: Seq<ListenerModel>, i: int, e: ListenerModel) -> Seq<ListenerModel> {
    if 0 <= i < v.len() {
        v.update(i, e)
    } else {
        v.push(e)
    }
}

/// The place of a listener lies within the list or at its end, holds the
/// listener where it lies within, and no earlier place holds it.
pub proof fn lemma_place_of_addr(v: Seq<ListenerModel>, addr: Seq<char>)
    ensures
        0 <= place_of_addr(v, addr) <= v.len(),
        place_of_addr(v, addr) < v.len() ==> v[place_of_addr(v, addr)].addr == addr,
        forall|k: int| 0 <= k < place_of_addr(v, addr) ==> (#[trigger] v[k]).addr != addr,
    decreases v.len(),
{
    if v.len() > 0 {
        lemma_place_of_addr(v.drop_last(), addr);
        assert forall|k: int| 0 <= k < place_of_addr(v, addr) implies (#[trigger] v[k]).addr != addr by {
            if k < v.len() - 1 {
                assert(v.drop_last()[k].addr != addr);
            }
        }
    }
}

/// The first place at which `addr` stands is its place.
pub proof fn lemma_place_found(v: Seq<ListenerModel>, addr: Seq<char>, i: int)
    requires
        0 <= i <= v.len(),
        i < v.len() ==> v[i].addr == addr,
        forall|k: int| 0 <= k < i ==> (#[trigger] v[k]).addr != addr,
    ensures
        place_of_addr(v, addr) == i,
{
    lemma_place_of_addr(v, addr);
}

impl ListenerSeries {
    /// The listener as the contracts see it.
    pub closed spec fn model(&self) -> ListenerModel {
        ListenerModel { addr: self.addr@, short: self.short.model(), long: self.long.model() }
    }

    /// Both series are in order and have the spans and steps of `agg`.
    pub closed spec fn wf(&self, agg: &Aggregator) -> bool {
        &&& self.short.wf()
        &&& self.long.wf()
        &&& self.short.span() == agg.short_span
        &&& self.short.step() == agg.short_step
        &&& self.long.span() == agg.long_span
        &&& self.long.step() == agg.long_step
    }
}

impl Aggregator {
    /// The listeners with their series.
    pub closed spec fn view(&self) -> Seq<ListenerModel> {
        Seq::new(self.listeners@.len(), |i: int| self.listeners@[i].model())
    }

    /// The span of every short series, in seconds.
    pub closed spec fn short_span(&self) -> int {
        self.short_span as int
    }

    /// The seconds of one bucket of a short series.
    pub closed spec fn short_step(&self) -> int {
        self.short_step as int
    }

    /// The span of every long series, in seconds.
    pub closed spec fn long_span(&self) -> int {
        self.long_span as int
    }

    /// The seconds of one bucket of a long series.
    pub closed spec fn long_step(&self) -> int {
        self.long_step as int
    }

    /// The aggregator is in order: spans and steps are positive, no listener
    /// stands twice, and every series has the configured span and step.
    pub closed spec fn wf(&self) -> bool {
        &&& self.short_span > 0 && self.short_step > 0 && self.long_span > 0 && self.long_step > 0
        &&& forall|i: int| 0 <= i < self.listeners@.len() ==> (#[trigger] self.listeners@[i]).wf(self)
        &&& forall|i: int, j: int|
            0 <= i < j < self.listeners@.len() ==> (#[trigger] self.listeners@[i]).addr@ != (
            #[trigger] self.listeners@[j]).addr@
    }

    /// In an aggregator in order no listener stands twice, and every bucket of
    /// every series adds up: its count is the sum of its five classes.
    pub proof fn lemma_in_order(&self)
        requires
            self.wf(),
        ensures
            forall|i: int, j: int|
                0 <= i < j < self@.len() ==> (#[trigger] self@[i]).addr != (#[trigger] self@[j]).addr,
            forall|i: int|
                0 <= i < self@.len() ==> all_add_up((#[trigger] self@[i]).short) && all_add_up(
                    self@[i].long,
                ),
    {
        assert forall|i: int, j: int| 0 <= i < j < self@.len() implies (#[trigger] self@[i]).addr != (
        #[trigger] self@[j]).addr by {
            assert(self.listeners@[i].addr@ != self.listeners@[j].addr@);
        }
        assert forall|i: int| 0 <= i < self@.len() implies all_add_up((#[trigger] self@[i]).short)
            && all_add_up(self@[i].long) by {
            assert(self.listeners@[i].wf(self));
            self.listeners@[i].short.lemma_buckets_add_up();
            self.listeners@[i].long.lemma_buckets_add_up();
        }
    }

    /// An aggregator without listeners. A span or step that is not positive
    /// is replaced by its default: six hours and one day for the spans, one
    /// minute for the steps.
    pub fn new(short_span: i32, short_step: i32, long_span: i32, long_step: i32) -> (agg: Aggregator)
        ensures
            agg.wf(),
            agg@.len() == 0,
            agg.short_span() == if short_span > 0 {
                short_span
            } else {
                DEFAULT_SHORT_SPAN
            },
            agg.short_step() == if short_step > 0 {
                short_step
            } else {
                DEFAULT_STEP
            },
            agg.long_span() == if long_span > 0 {
                long_span
            } else {
                DEFAULT_LONG_SPAN
            },
            agg.long_step() == if long_step > 0 {
                long_step
            } else {
                DEFAULT_STEP
            },
    {
        Aggregator {
            short_span: if short_span > 0 {
                short_span
            } else {
                DEFAULT_SHORT_SPAN
            },
            short_step: if short_step > 0 {
                short_step
            } else {
                DEFAULT_STEP
            },
            long_span: if long_span > 0 {
                long_span
            } else {
                DEFAULT_LONG_SPAN
            },
            long_step: if long_step > 0 {
                long_step
            } else {
                DEFAULT_STEP
            },
            listeners: Vec::new(),
        }
    }

    /// The span of the short series, in seconds.
    pub fn short_window_seconds(&self) -> (s: i32)
        ensures
            s == self.short_span(),
    {
        self.short_span
    }

    /// The span of the long series, in seconds.
    pub fn long_window_seconds(&self) -> (s: i32)
        ensures
            s == self.long_span(),
    {
        self.long_span
    }

    /// How many listeners have reported a request.
    pub fn listener_count(&self) -> (n: usize)
        ensures
            n == self@.len(),
    {
        self.listeners.len()
    }

    /// The address of the listener at place `i`.
    pub fn listener_addr(&self, i: usize) -> (addr: String)
        requires
            i < self@.len(),
        ensures
            addr@ == self@[i as int].addr,
    {
        self.listeners[i].addr.clone()
    }

    /// The short series of the listener at place `i`, as lists.
    pub fn short_series(&self, i: usize) -> (s: MetricsSeries)
        requires
            self.wf(),
            i < self@.len(),
        ensures
            series_shows(s, self@[i as int].short),
    {
        self.listeners[i].short.series()
    }

    /// The long series of the listener at place `i`, as lists.
    pub fn long_series(&self, i: usize) -> (s: MetricsSeries)
        requires
            self.wf(),
            i < self@.len(),
        ensures
            series_shows(s, self@[i as int].long),
    {
        self.listeners[i].long.series()
    }

    fn find(&self, listen_addr: &str) -> (i: usize)
        ensures
            i == place_of_addr(self@, listen_addr@),
            i <= self.listeners@.len(),
    {
        let mut i: usize = 0;
        while i < self.listeners.len()
            invariant
                i <= self.listeners.len(),
                forall|k: int| 0 <= k < i ==> (#[trigger] self@[k]).addr != listen_addr@,
            decreases self.listeners.len() - i,
        {
            if str_eq(self.listeners[i].addr.as_str(), listen_addr) {
                proof {
                    lemma_place_found(self@, listen_addr@, i as int);
                }
                return i;
            }
            i += 1;
        }
        proof {
            lemma_place_found(self@, listen_addr@, i as int);
        }
        i
    }

    /// Counts one request of the listener `listen_addr` in both of its
    /// series. A listener that reports for the first time is added after the
    /// others, with empty series.
    ///
    /// Returns `false`, and changes nothing, where either series cannot count
    /// the request: the time stamp is negative, or a counter is full.
    pub fn record(&mut self, listen_addr: &str, timestamp: i64, status: i32, latency_us: u64) -> (stored:
        bool)
        requires
            old(self).wf(),
        ensures
            final(self).wf(),
            final(self).short_span() == old(self).short_span(),
            final(self).short_step() == old(self).short_step(),
            final(self).long_span() == old(self).long_span(),
            final(self).long_step() == old(self).long_step(),
            ({
                let i = place_of_addr(old(self)@, listen_addr@);
                let e = series_at(old(self)@, i, listen_addr@);
                &&& stored == (has_room(e.short, old(self).short_step(), timestamp as int, latency_us)
                    && has_room(e.long, old(self).long_step(), timestamp as int, latency_us))
                &&& stored ==> final(self)@ == with_series(
                    old(self)@,
                    i,
                    ListenerModel {
                        addr: listen_addr@,
                        short: record_model(
                            e.short,
                            old(self).short_span(),
                            old(self).short_step(),
                            timestamp as int,
                            status as int,
                            latency_us,
                        ),
                        long: record_model(
                            e.long,
                            old(self).long_span(),
                            old(self).long_step(),
                            timestamp as int,
                            status as int,
                            latency_us,
                        ),
                    },
                )
                &&& !stored ==> final(self)@ == old(self)@
            }),
    {
        let i = self.find(listen_addr);
        proof {
            lemma_place_of_addr(self@, listen_addr@);
        }
        if i == self.listeners.len() {
            if timestamp < 0 {
                return false;
            }
            let mut short = Window::new(self.short_span as i64, self.short_step as i64);
            let mut long = Window::new(self.long_span as i64, self.long_step as i64);
            let a = short.record(timestamp, status, latency_us);
            let b = long.record(timestamp, status, latency_us);
            let entry = ListenerSeries { addr: String::from_str(listen_addr), short, long };
            self.listeners.push(entry);
            proof {
                assert forall|x: int, y: int| 0 <= x < y < self.listeners@.len() implies (
                #[trigger] self.listeners@[x]).addr@ != (#[trigger] self.listeners@[y]).addr@ by {
                    if y == i {
                        assert(old(self)@[x].addr != listen_addr@);
                    }
                }
            }
            true
        } else {
            if !self.listeners[i].short.can_record(timestamp, latency_us)
                || !self.listeners[i].long.can_record(timestamp, latency_us) {
                return false;
            }
            let a = self.listeners[i].short.record(timestamp, status, latency_us);
            let b = self.listeners[i].long.record(timestamp, status, latency_us);
            true
        }
    }
}

/// The requests of one listener do not touch the series of another.
pub proof fn lemma_other_listeners_untouched(
    v: Seq<ListenerModel>,
    addr: Seq<char>,
    e: ListenerModel,
    k: int,
)
    requires
        0 <= k < v.len(),
        v[k].addr != addr,
    ensures
        with_series(v, place_of_addr(v, addr), e)[k] == v[k],
{
    lemma_place_of_addr(v, addr);
}

} // verus!
