//! Throughput measurement over a sliding window of the most recent packets.
use std::time::{Duration, Instant};
use vstd::prelude::*;

verus! {

/// Marks std's monotonic clock reading.
#[verifier::external_type_specification]
#[verifier::external_body]
pub struct ExInstant(std::time::Instant);

/// Relies on std::time::Instant::now: a reading of the monotonic clock. Nothing is
/// known of its value.
#[verifier::external_body]
fn clock_now() -> (r: Instant) {
    Instant::now()
}

/// Relies on std::time::Instant::saturating_duration_since: the time from `earlier` to
/// `later`, zero where `earlier` is the later one.
#[verifier::external_body]
fn time_between(earlier: &Instant, later: &Instant) -> (r: Duration) {
    later.saturating_duration_since(*earlier)
}

/// Relies on std::time::Duration::as_nanos: the whole nanoseconds of `d`.
#[verifier::external_body]
fn whole_nanos(d: &Duration) -> (r: u128) {
    d.as_nanos()
}

/// The whole nanoseconds from `earlier` to `later`.
fn nanos_between(earlier: &Instant, later: &Instant) -> (r: u128) {
    let d = time_between(earlier, later);
    whole_nanos(&d)
}

/// Most packets the window holds.
pub const WINDOW: usize = 1024;

/// Sum of a sequence of 64-bit counts.
pub open spec fn seq_sum(s: Seq<u64>) -> int
    decreases s.len(),
{
    if s.len() == 0 {
        0
    } else {
        seq_sum(s.drop_last()) + s.last()
    }
}

/// `s` after one more entry `x`, with the oldest entry dropped once there are more
/// than `WINDOW`.
pub open spec fn window_push(s: Seq<u64>, x: u64) -> Seq<u64> {
    if s.len() + 1 > WINDOW {
        s.push(x).drop_first()
    } else {
        s.push(x)
    }
}

/// The sum without the first entry.
pub proof fn lemma_seq_sum_drop_first(s: Seq<u64>)
    requires
        s.len() > 0,
    ensures
        seq_sum(s) == s[0] + seq_sum(s.drop_first()),
    decreases s.len(),
{
    if s.len() == 1 {
        assert(seq_sum(s.drop_first()) == 0);
        assert(seq_sum(s.drop_last()) == 0);
        assert(seq_sum(s) == seq_sum(s.drop_last()) + s.last());
    } else {
        lemma_seq_sum_drop_first(s.drop_last());
        assert(s.drop_last().drop_first() =~= s.drop_first().drop_last());
        assert(s.drop_first().last() == s.last());
        assert(seq_sum(s.drop_first()) == seq_sum(s.drop_first().drop_last()) + s.drop_first().last());
        assert(seq_sum(s) == seq_sum(s.drop_last()) + s.last());
    }
}

/// A sum of `n` counts is at most `n` times the largest count.
pub proof fn lemma_seq_sum_bounds(s: Seq<u64>)
    ensures
        0 <= seq_sum(s) <= s.len() * 0xFFFF_FFFF_FFFF_FFFF,
    decreases s.len(),
{
    if s.len() > 0 {
        lemma_seq_sum_bounds(s.drop_last());
    }
}

/// What the window holds: samples and nanoseconds over all its packets.
#[derive(Debug, Clone, Copy, PartialEq, Eq, Structural)]
pub struct Rate {
    pub samples: u128,
    pub nanos: u128,
}

/// A saturating conversion of a nanosecond count to 64 bits.
pub fn clamp_nanos(n: u128) -> (r: u64)
    ensures
        r == if n > 0xFFFF_FFFF_FFFF_FFFF {
            0xFFFF_FFFF_FFFF_FFFFu64
        } else {
            n as u64
        },
{
    if n > 0xFFFF_FFFF_FFFF_FFFFu128 {
        0xFFFF_FFFF_FFFF_FFFFu64
    } else {
        n as u64
    }
}

/// Whether a report is due `since_nanos` nanoseconds after the last one, reporting
/// every `every_nanos`.
pub fn report_due(since_nanos: u128, every_nanos: u64) -> (r: bool)
    ensures
        r == (since_nanos >= every_nanos),
{
    since_nanos >= every_nanos as u128
}

/// The packet-rate monitor: for each of the latest packets, the time since the one
/// before and its sample count, with running totals.
pub struct Measurement {
    last_packet_time: Instant,
    packet_durations: std::collections::VecDeque<u64>,
    packet_sizes: std::collections::VecDeque<u64>,
    total_duration: u128,
    total_size: u128,
    last_display_time: Instant,
}

impl Measurement {
    /// The nanoseconds between consecutive packets, oldest first.
    pub closed spec fn durations(&self) -> Seq<u64> {
        self.packet_durations@
    }

    /// The sample counts of the packets, oldest first.
    pub closed spec fn sizes(&self) -> Seq<u64> {
        self.packet_sizes@
    }

    /// When the latest packet was recorded.
    pub closed spec fn last_packet(&self) -> Instant {
        self.last_packet_time
    }

    /// When the latest report was made.
    pub closed spec fn last_display(&self) -> Instant {
        self.last_display_time
    }

    /// The window holds one duration per packet, at most `WINDOW` of them, and the
    /// running totals are the sums over what it holds.
    pub closed spec fn wf(&self) -> bool {
        &&& self.packet_durations@.len() == self.packet_sizes@.len()
        &&& self.packet_sizes@.len() <= WINDOW
        &&& self.total_duration as int == seq_sum(self.packet_durations@)
        &&& self.total_size as int == seq_sum(self.packet_sizes@)
    }

    /// An empty window, timed from now.
    pub fn new() -> (r: Self)
        ensures
            r.wf(),
            r.durations().len() == 0,
            r.sizes().len() == 0,
    {
        Measurement {
            last_packet_time: clock_now(),
            packet_durations: std::collections::VecDeque::new(),
            packet_sizes: std::collections::VecDeque::new(),
            total_duration: 0,
            total_size: 0,
            last_display_time: clock_now(),
        }
    }

    /// The number of packets in the window.
    pub fn len(&self) -> (r: usize)
        requires
            self.wf(),
        ensures
            r == self.sizes().len(),
            r <= WINDOW,
    {
        self.packet_sizes.len()
    }

    /// Adds a packet of `samples` samples that came `nanos` nanoseconds after the one
    /// before; past `WINDOW` packets the oldest one leaves, and the totals follow.
    pub fn record(&mut self, nanos: u64, samples: u64)
        requires
            old(self).wf(),
        ensures
            final(self).wf(),
            final(self).durations() == window_push(old(self).durations(), nanos),
            final(self).sizes() == window_push(old(self).sizes(), samples),
            final(self).last_packet() == old(self).last_packet(),
            final(self).last_display() == old(self).last_display(),
    {
        let ghost d0 = self.packet_durations@;
        let ghost s0 = self.packet_sizes@;
        proof {
            lemma_seq_sum_bounds(d0);
            lemma_seq_sum_bounds(s0);
        }
        self.packet_durations.push_back(nanos);
        self.packet_sizes.push_back(samples);
        proof {
            assert(d0.push(nanos).drop_last() =~= d0);
            assert(s0.push(samples).drop_last() =~= s0);
        }
        self.total_duration = self.total_duration + nanos as u128;
        self.total_size = self.total_size + samples as u128;
        if self.packet_sizes.len() > WINDOW {
            let ghost d1 = self.packet_durations@;
            let ghost s1 = self.packet_sizes@;
            proof {
                lemma_seq_sum_drop_first(d1);
                lemma_seq_sum_drop_first(s1);
                lemma_seq_sum_bounds(d1.drop_first());
                lemma_seq_sum_bounds(s1.drop_first());
            }
            match self.packet_durations.pop_front() {
                Some(d) => {
                    self.total_duration = self.total_duration - d as u128;
                },
                None => {},
            }
            match self.packet_sizes.pop_front() {
                Some(s) => {
                    self.total_size = self.total_size - s as u128;
                },
                None => {},
            }
            proof {
                assert(self.packet_durations@ =~= d1.drop_first());
                assert(self.packet_sizes@ =~= s1.drop_first());
            }
        }
    }

    /// Adds a packet of `length` samples that arrived now.
    pub fn add_packet(&mut self, length: usize)
        requires
            old(self).wf(),
        ensures
            final(self).wf(),
            final(self).sizes() == window_push(old(self).sizes(), length as u64),
            exists|d: u64| final(self).durations() == window_push(old(self).durations(), d),
            final(self).last_display() == old(self).last_display(),
    {
        let ghost before = self.durations();
        let now = clock_now();
        let elapsed = clamp_nanos(nanos_between(&self.last_packet_time, &now));
        self.last_packet_time = now;
        self.record(elapsed, length as u64);
        assert(self.durations() == window_push(before, elapsed));
    }

    /// The samples and time over the window: `None` while it is empty, else the two
    /// sums over the packets it holds. The rate is their quotient.
    pub fn current_rate(&self) -> (r: Option<Rate>)
        requires
            self.wf(),
        ensures
            self.sizes().len() == 0 ==> r is None,
            self.sizes().len() > 0 ==> r == Some(
                Rate { samples: seq_sum(self.sizes()) as u128, nanos: seq_sum(self.durations()) as u128 },
            ),
    {
        if self.packet_sizes.len() == 0 {
            None
        } else {
            Some(Rate { samples: self.total_size, nanos: self.total_duration })
        }
    }

    /// Whether a report is due: true when at least `every_nanos` nanoseconds have
    /// passed since the last report, which then counts from now.
    pub fn maybe_display(&mut self, every_nanos: u64) -> (r: bool)
        requires
            old(self).wf(),
        ensures
            final(self).wf(),
            final(self).sizes() == old(self).sizes(),
            final(self).durations() == old(self).durations(),
            final(self).last_packet() == old(self).last_packet(),
            every_nanos == 0 ==> r,
            !r ==> final(self).last_display() == old(self).last_display(),
    {
        let now = clock_now();
        let since = nanos_between(&self.last_display_time, &now);
        if report_due(since, every_nanos) {
            self.last_display_time = now;
            true
        } else {
            false
        }
    }
}

/// A well-formed window never holds more than `WINDOW` packets, and holds one duration
/// for each sample count.
pub proof fn lemma_window_bounded(m: &Measurement)
    requires
        m.wf(),
    ensures
        m.sizes().len() <= WINDOW,
        m.durations().len() == m.sizes().len(),
{
}

} // verus!
