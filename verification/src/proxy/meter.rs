//! Counting traffic in batches.

use super::metrics::{self, ClientMetrics, GlobalMetrics, MetricsView, TrafficDirection, NANOS_PER_SEC};
use vstd::prelude::*;

verus! {

/// A batch of this size is counted at once.
pub const METRICS_FLUSH_BYTES: u64 = 65536;

/// A batch of this size is counted when the last count is long enough ago.
pub const METRICS_TIME_CHECK_BYTES: u64 = 32768;

/// How long ago, in nanoseconds.
pub const METRICS_FLUSH_INTERVAL: u64 = NANOS_PER_SEC;

/// The bytes of one client in one direction that wait to be counted.
pub struct TrafficMeter {
    pub direction: TrafficDirection,
    pub pending_bytes: u64,
    pub last_flush: u64,
}

/// `a + b`, or the largest number.
pub open spec fn saturated(a: u64, b: u64) -> u64 {
    if a + b > u64::MAX {
        u64::MAX
    } else {
        (a + b) as u64
    }
}

/// Whether a batch of `pending` bytes is counted at time `now`.
pub open spec fn is_due(pending: u64, last_flush: u64, now: u64) -> bool {
    ||| pending >= METRICS_FLUSH_BYTES
    ||| (pending >= METRICS_TIME_CHECK_BYTES && now >= last_flush && now - last_flush
        >= METRICS_FLUSH_INTERVAL)
}

impl TrafficMeter {
    /// A meter for what a client sends.
    pub fn upload(now: u64) -> (r: Self)
        ensures
            r == (TrafficMeter {
                direction: TrafficDirection::Upload,
                pending_bytes: 0,
                last_flush: now,
            }),
    {
        TrafficMeter { direction: TrafficDirection::Upload, pending_bytes: 0, last_flush: now }
    }

    /// A meter for what a client receives.
    pub fn download(now: u64) -> (r: Self)
        ensures
            r == (TrafficMeter {
                direction: TrafficDirection::Download,
                pending_bytes: 0,
                last_flush: now,
            }),
    {
        TrafficMeter { direction: TrafficDirection::Download, pending_bytes: 0, last_flush: now }
    }

    /// The meter after it took note of bytes at time `now`, and the batch that came out.
    pub open spec fn recorded(self, bytes: u64, now: u64) -> (TrafficMeter, Option<u64>) {
        let pending = saturated(self.pending_bytes, bytes);
        if is_due(pending, self.last_flush, now) {
            (TrafficMeter { pending_bytes: 0, last_flush: now, ..self }, Some(pending))
        } else {
            (TrafficMeter { pending_bytes: pending, ..self }, None)
        }
    }

    /// The meter after a flush at time `now`, and the batch that came out.
    pub open spec fn flushed(self, now: u64) -> (TrafficMeter, Option<u64>) {
        if self.pending_bytes == 0 {
            (self, None)
        } else {
            (TrafficMeter { pending_bytes: 0, last_flush: now, ..self }, Some(self.pending_bytes))
        }
    }

    /// Takes note of bytes at time `now`; gives the batch that is to be counted, when one is due.
    pub fn record(&mut self, bytes: u64, now: u64) -> (r: Option<u64>)
        ensures
            (*final(self), r) == old(self).recorded(bytes, now),
            final(self).pending_bytes < METRICS_FLUSH_BYTES,
    {
        self.pending_bytes = self.pending_bytes.saturating_add(bytes);
        if self.pending_bytes >= METRICS_FLUSH_BYTES || (self.pending_bytes
            >= METRICS_TIME_CHECK_BYTES && now >= self.last_flush && now - self.last_flush
            >= METRICS_FLUSH_INTERVAL) {
            return self.flush(now);
        }
        None
    }

    /// The batch that waits, when there is one; nothing waits after that. Whoever drops a meter
    /// counts this batch.
    pub fn flush(&mut self, now: u64) -> (r: Option<u64>)
        ensures
            (*final(self), r) == old(self).flushed(now),
            final(self).pending_bytes == 0,
    {
        if self.pending_bytes == 0 {
            return None;
        }
        let bytes: u64 = self.pending_bytes;
        self.pending_bytes = 0;
        self.last_flush = now;
        Some(bytes)
    }
}

/// A client after a batch in one direction, when there is one.
pub open spec fn client_with_batch(
    client: ClientMetrics,
    direction: TrafficDirection,
    batch: Option<u64>,
) -> ClientMetrics {
    match batch {
        Some(bytes) => client.with_bytes(direction, bytes),
        None => client,
    }
}

/// The counters after a batch of a client, when there is one.
pub open spec fn with_batch(
    m: MetricsView,
    client: ClientMetrics,
    direction: TrafficDirection,
    batch: Option<u64>,
) -> MetricsView {
    match batch {
        Some(bytes) => m.with_count(client, direction, bytes),
        None => m,
    }
}

/// Counts a batch of a client, when there is one: for the client itself, and in all.
pub fn count_batch(
    metrics: &mut GlobalMetrics,
    client: &mut ClientMetrics,
    direction: TrafficDirection,
    batch: Option<u64>,
)
    ensures
        *final(client) == client_with_batch(*old(client), direction, batch),
        final(metrics)@ == with_batch(old(metrics)@, *old(client), direction, batch),
        old(metrics)@.consistent() ==> final(metrics)@.consistent(),
        old(metrics)@.shows(*old(client)) ==> final(metrics)@.shows(*final(client)),
{
    match batch {
        Some(bytes) => metrics.count(client, direction, bytes),
        None => {},
    }
}

/// What happens to a meter.
pub enum MeterEvent {
    Record(u64),
    Flush,
}

/// A client whose traffic is metered in both directions, and the counters that its batches go to.
pub struct Account {
    pub upload_meter: TrafficMeter,
    pub download_meter: TrafficMeter,
    pub client: ClientMetrics,
    pub metrics: MetricsView,
}

impl Account {
    /// The meter of one direction.
    pub open spec fn meter(self, direction: TrafficDirection) -> TrafficMeter {
        match direction {
            TrafficDirection::Upload => self.upload_meter,
            TrafficDirection::Download => self.download_meter,
        }
    }

    /// What follows when something happens to the meter of one direction at time `now`: the batch
    /// that comes out, if one does, is counted.
    pub open spec fn step(self, direction: TrafficDirection, event: MeterEvent, now: u64) -> Account {
        let (meter, batch) = match event {
            MeterEvent::Record(bytes) => self.meter(direction).recorded(bytes, now),
            MeterEvent::Flush => self.meter(direction).flushed(now),
        };
        Account {
            upload_meter: if direction == TrafficDirection::Upload {
                meter
            } else {
                self.upload_meter
            },
            download_meter: if direction == TrafficDirection::Download {
                meter
            } else {
                self.download_meter
            },
            client: client_with_batch(self.client, direction, batch),
            metrics: with_batch(self.metrics, self.client, direction, batch),
        }
    }

    /// What follows from a history of events, each with its direction and its time.
    pub open spec fn after(self, history: Seq<(TrafficDirection, MeterEvent, u64)>) -> Account
        decreases history.len(),
    {
        if history.len() == 0 {
            self
        } else {
            let (direction, event, now) = history.last();
            self.after(history.drop_last()).step(direction, event, now)
        }
    }
}

/// The bytes that the meter of one direction is told of in a history.
pub open spec fn told(
    history: Seq<(TrafficDirection, MeterEvent, u64)>,
    direction: TrafficDirection,
) -> nat
    decreases history.len(),
{
    if history.len() == 0 {
        0
    } else {
        let (d, event, _) = history.last();
        let bytes: nat = match event {
            MeterEvent::Record(bytes) if d == direction => bytes as nat,
            _ => 0,
        };
        told(history.drop_last(), direction) + bytes
    }
}

/// A number as a counter that wraps around holds it.
#[verifier::opaque]
pub open spec fn wrapped(n: int) -> int {
    n % 0x1_0000_0000_0000_0000
}

/// No byte is lost and none is counted twice, neither for the client nor in all, in whatever order
/// a client's meters record and flush: the counter and what still waits make up what they were
/// before and what the meter was told of. The counters wrap around; what waits must fit.
pub proof fn lemma_every_byte_is_counted(
    a: Account,
    history: Seq<(TrafficDirection, MeterEvent, u64)>,
    d: TrafficDirection,
)
    requires
        a.meter(d).pending_bytes + told(history, d) <= u64::MAX,
    ensures
        ({
            let b = a.after(history);
            let waiting = a.meter(d).pending_bytes + told(history, d);
            &&& b.meter(d).pending_bytes <= waiting
            &&& wrapped(b.client.counter(d) + b.meter(d).pending_bytes) == wrapped(
                a.client.counter(d) + waiting,
            )
            &&& wrapped(b.metrics.total(d) + b.meter(d).pending_bytes) == wrapped(
                a.metrics.total(d) + waiting,
            )
        }),
    decreases history.len(),
{
    if history.len() > 0 {
        lemma_every_byte_is_counted(a, history.drop_last(), d);
        let b = a.after(history.drop_last());
        let (direction, event, now) = history.last();
        lemma_step_counts(b, direction, event, now, d);
        let more: int = match event {
            MeterEvent::Record(bytes) if direction == d => bytes as int,
            _ => 0,
        };
        assert(told(history, d) == told(history.drop_last(), d) + more);
        let waiting = a.meter(d).pending_bytes + told(history.drop_last(), d);
        lemma_wrapped_sum(
            b.client.counter(d) + b.meter(d).pending_bytes,
            a.client.counter(d) + waiting,
            more,
        );
        lemma_wrapped_sum(
            b.metrics.total(d) + b.meter(d).pending_bytes,
            a.metrics.total(d) + waiting,
            more,
        );
    }
}

proof fn lemma_wrapped_sum(x: int, y: int, n: int)
    requires
        wrapped(x) == wrapped(y),
    ensures
        wrapped(x + n) == wrapped(y + n),
{
    reveal(wrapped);
    vstd::arithmetic::div_mod::lemma_add_mod_noop(x, n, 0x1_0000_0000_0000_0000);
    vstd::arithmetic::div_mod::lemma_add_mod_noop(y, n, 0x1_0000_0000_0000_0000);
}

proof fn lemma_counted(count: u64, n: u64)
    ensures
        wrapped(metrics::counted(count, n) as int) == wrapped(count + n),
{
    reveal(wrapped);
}

/// One event keeps the counter and what waits together.
proof fn lemma_step_counts(
    b: Account,
    direction: TrafficDirection,
    event: MeterEvent,
    now: u64,
    d: TrafficDirection,
)
    requires
        match event {
            MeterEvent::Record(bytes) if direction == d => b.meter(d).pending_bytes + bytes
                <= u64::MAX,
            _ => true,
        },
    ensures
        ({
            let c = b.step(direction, event, now);
            let more: int = match event {
                MeterEvent::Record(bytes) if direction == d => bytes as int,
                _ => 0,
            };
            &&& c.meter(d).pending_bytes <= b.meter(d).pending_bytes + more
            &&& wrapped(c.client.counter(d) + c.meter(d).pending_bytes) == wrapped(
                b.client.counter(d) + b.meter(d).pending_bytes + more,
            )
            &&& wrapped(c.metrics.total(d) + c.meter(d).pending_bytes) == wrapped(
                b.metrics.total(d) + b.meter(d).pending_bytes + more,
            )
        }),
{
    let (_, batch) = match event {
        MeterEvent::Record(bytes) => b.meter(direction).recorded(bytes, now),
        MeterEvent::Flush => b.meter(direction).flushed(now),
    };
    if direction == d {
        match batch {
            Some(bytes) => {
                lemma_counted(b.client.counter(d), bytes);
                lemma_counted(b.metrics.total(d), bytes);
            },
            None => {},
        }
    }
}

/// Once a meter is flushed, the client's counter and the sum have grown by exactly what waited
/// before and what the meter was told of since, as long as these numbers fit.
pub proof fn lemma_flushed_counters_are_exact(
    a: Account,
    history: Seq<(TrafficDirection, MeterEvent, u64)>,
    d: TrafficDirection,
    now: u64,
)
    requires
        a.client.counter(d) + a.meter(d).pending_bytes + told(history, d) <= u64::MAX,
        a.metrics.total(d) + a.meter(d).pending_bytes + told(history, d) <= u64::MAX,
    ensures
        ({
            let b = a.after(history).step(d, MeterEvent::Flush, now);
            let waiting = a.meter(d).pending_bytes + told(history, d);
            &&& b.meter(d).pending_bytes == 0
            &&& b.client.counter(d) == a.client.counter(d) + waiting
            &&& b.metrics.total(d) == a.metrics.total(d) + waiting
        }),
{
    lemma_every_byte_is_counted(a, history, d);
    let b = a.after(history);
    lemma_step_counts(b, d, MeterEvent::Flush, now, d);
    let c = b.step(d, MeterEvent::Flush, now);
    assert(c.meter(d).pending_bytes == 0);
    lemma_wrapped_fits(c.client.counter(d) as int);
    lemma_wrapped_fits(c.metrics.total(d) as int);
    let waiting = a.meter(d).pending_bytes + told(history, d);
    lemma_wrapped_fits(a.client.counter(d) + waiting);
    lemma_wrapped_fits(a.metrics.total(d) + waiting);
}

proof fn lemma_wrapped_fits(n: int)
    requires
        0 <= n <= u64::MAX,
    ensures
        wrapped(n) == n,
{
    reveal(wrapped);
}

/// A listed client is always listed with the counts that it has.
pub proof fn lemma_the_list_keeps_up(
    a: Account,
    history: Seq<(TrafficDirection, MeterEvent, u64)>,
)
    requires
        a.metrics.shows(a.client),
    ensures
        a.after(history).metrics.shows(a.after(history).client),
        a.after(history).client.id == a.client.id,
        a.after(history).metrics.clients.contains_key(a.client.id)
            == a.metrics.clients.contains_key(a.client.id),
    decreases history.len(),
{
    if history.len() > 0 {
        lemma_the_list_keeps_up(a, history.drop_last());
    }
}

/// A stream with a meter for each direction.
pub struct MeteredStream<S> {
    pub inner: S,
    pub upload_meter: TrafficMeter,
    pub download_meter: TrafficMeter,
}

impl<S> MeteredStream<S> {
    /// A stream whose meters start at time `now`.
    pub fn new(inner: S, now: u64) -> (r: Self)
        ensures
            r.inner == inner,
            r.upload_meter == (TrafficMeter {
                direction: TrafficDirection::Upload,
                pending_bytes: 0,
                last_flush: now,
            }),
            r.download_meter == (TrafficMeter {
                direction: TrafficDirection::Download,
                pending_bytes: 0,
                last_flush: now,
            }),
    {
        MeteredStream {
            inner,
            upload_meter: TrafficMeter::upload(now),
            download_meter: TrafficMeter::download(now),
        }
    }
}

/// A batch comes out once 65536 bytes wait, or 32768 and a second after the last one; it is all
/// that waited, and what does not come out goes on waiting. A flush lets everything out that waits.
pub proof fn lemma_when_batches_come_out(m: TrafficMeter, bytes: u64, now: u64)
    requires
        m.pending_bytes + bytes <= u64::MAX,
    ensures
        ({
            let sum = m.pending_bytes + bytes;
            let (after, batch) = m.recorded(bytes, now);
            &&& batch is Some <==> sum >= 65536 || (sum >= 32768 && now >= m.last_flush
                + 1_000_000_000)
            &&& batch matches Some(b) ==> b == sum && after.pending_bytes == 0 && after.last_flush
                == now
            &&& batch is None ==> after.pending_bytes == sum && after.last_flush == m.last_flush
            &&& after.direction == m.direction
        }),
        ({
            let (after, batch) = m.flushed(now);
            &&& batch is Some <==> m.pending_bytes > 0
            &&& batch matches Some(b) ==> b == m.pending_bytes && after.last_flush == now
            &&& batch is None ==> after == m
            &&& after.pending_bytes == 0
            &&& after.direction == m.direction
        }),
{
}

/// What waits is never more than a counter holds.
pub proof fn lemma_waiting_bytes_saturate(a: u64, b: u64)
    ensures
        a + b <= u64::MAX ==> saturated(a, b) == a + b,
        a + b > u64::MAX ==> saturated(a, b) == 0xffff_ffff_ffff_ffff,
{
}

} // verus!
