//! What a consumer keeps about the messages of a stream: counts, losses, latencies.
use crate::latency::{
    histogram_digits, law_levels_are_close, least_power, level_of, recorded_levels,
    unit_resolution, LatencyHistogram,
};
use crate::message::{
    decode_header, decoded, encoded, law_header_round_trip, Header, HEADER_LEN,
};
use crate::ratio::Ratio;
use std::collections::HashMap;
use vstd::arithmetic::power::pow;
use vstd::multiset::Multiset;
use vstd::prelude::*;

verus! {

broadcast use vstd::std_specs::hash::group_hash_axioms;

/// Significant digits of the latency histograms.
pub const LATENCY_DIGITS: u8 = 4;

/// Latencies of less than 32.768 milliseconds are kept to the microsecond.
pub proof fn lemma_latency_resolution()
    ensures
        unit_resolution(LATENCY_DIGITS) == 32_768,
        pow(10, LATENCY_DIGITS as nat) == 10_000,
{
    assert(pow(10, 4) == 10_000) by {
        reveal(pow);
        reveal_with_fuel(pow, 5);
    }
    reveal_with_fuel(least_power, 17);
}

/// The statistics of a stream as mathematical values.
#[verifier::ext_equal]
pub struct StatsView {
    /// Messages received.
    pub received: nat,
    /// Bytes received, headers included.
    pub bytes: nat,
    /// Messages found missing.
    pub lost: nat,
    /// For each stream id seen, the sequence number that should come next.
    pub expected: Map<u64, u64>,
    /// The latencies in microseconds, by the level that the histogram counts them under.
    pub levels: Multiset<u64>,
}

/// The latency of a message in microseconds; 0 where the clocks say that it arrived before it was
/// sent.
pub open spec fn latency_us(recv_ns: u64, ts_ns: u64) -> u64 {
    if recv_ns >= ts_ns {
        ((recv_ns - ts_ns) / 1000) as u64
    } else {
        0
    }
}

/// The latency as it is recorded: at least one microsecond.
pub open spec fn latency_sample(recv_ns: u64, ts_ns: u64) -> u64 {
    if latency_us(recv_ns, ts_ns) < 1 {
        1
    } else {
        latency_us(recv_ns, ts_ns)
    }
}

/// How many messages are missing where `expected` should have come and `seq` came.
pub open spec fn gap(expected: u64, seq: u64) -> nat {
    if seq > expected {
        (seq - expected) as nat
    } else {
        0
    }
}

/// The throughput that a number of bytes comes to over a run of the given length: bits per second,
/// in units of 10^9. A run of no length has throughput 0.
pub open spec fn throughput_gbps(bytes: u64, secs: u64) -> Ratio {
    if secs == 0 {
        Ratio { numerator: 0, denominator: 1 }
    } else {
        Ratio { numerator: (bytes * 8) as u128, denominator: (secs * 1_000_000_000) as u128 }
    }
}

/// The throughput that a number of bytes comes to over a run of the given length.
pub fn throughput(bytes: u64, secs: u64) -> (r: Ratio)
    ensures
        r.wf(),
        r == throughput_gbps(bytes, secs),
{
    if secs == 0 {
        return Ratio { numerator: 0, denominator: 1 };
    }
    Ratio { numerator: bytes as u128 * 8, denominator: secs as u128 * 1_000_000_000 }
}

impl StatsView {
    /// Nothing received yet.
    pub open spec fn fresh() -> StatsView {
        StatsView {
            received: 0,
            bytes: 0,
            lost: 0,
            expected: Map::empty(),
            levels: Multiset::empty(),
        }
    }

    /// The sequence number that should come next on a stream; 0 on one not seen yet.
    pub open spec fn next_expected(self, stream_id: u64) -> u64 {
        if self.expected.contains_key(stream_id) {
            self.expected[stream_id]
        } else {
            0
        }
    }

    /// The statistics after one more message.
    pub open spec fn receive(self, data: Seq<u8>, recv_ns: u64) -> StatsView {
        let counted = StatsView {
            received: self.received + 1,
            bytes: self.bytes + data.len(),
            ..self
        };
        match decoded(data) {
            None => counted,
            Some(h) => StatsView {
                lost: self.lost + gap(self.next_expected(h.stream_id), h.seq),
                expected: self.expected.insert(h.stream_id, (h.seq + 1) as u64),
                levels: self.levels.insert(
                    level_of(LATENCY_DIGITS, latency_sample(recv_ns, h.producer_ts_ns)),
                ),
                ..counted
            },
        }
    }

    /// Whether the counters can take one more message.
    pub open spec fn can_receive(self, data: Seq<u8>) -> bool {
        &&& self.received < u64::MAX
        &&& self.bytes + data.len() <= u64::MAX
        &&& decoded(data) matches Some(h) ==> {
            &&& h.seq < u64::MAX
            &&& self.lost + gap(self.next_expected(h.stream_id), h.seq) <= u64::MAX
        }
    }

    /// The statistics with the counts and latencies of another set added. What should come next on
    /// each stream stays as it was.
    pub open spec fn merge(self, other: StatsView) -> StatsView {
        StatsView {
            received: self.received + other.received,
            bytes: self.bytes + other.bytes,
            lost: self.lost + other.lost,
            expected: self.expected,
            levels: self.levels.add(other.levels),
        }
    }

    /// Whether the counts fit in 64 bits.
    pub open spec fn fits(self) -> bool {
        &&& self.received <= u64::MAX
        &&& self.bytes <= u64::MAX
        &&& self.lost <= u64::MAX
    }

    /// Whether the counters can take those of the other set.
    pub open spec fn can_merge(self, other: StatsView) -> bool {
        self.merge(other).fits()
    }
}

/// Statistics of one stream, or of several that are reported together.
#[derive(Debug)]
pub struct StreamStats {
    pub messages_received: u64,
    pub total_bytes_received: u64,
    /// For each stream id, the sequence number that should come next.
    pub next_expected_seq: HashMap<u64, u64>,
    pub messages_lost: u64,
    pub latency_us: LatencyHistogram,
}

impl View for StreamStats {
    type V = StatsView;

    open spec fn view(&self) -> StatsView {
        StatsView {
            received: self.messages_received as nat,
            bytes: self.total_bytes_received as nat,
            lost: self.messages_lost as nat,
            expected: self.next_expected_seq@,
            levels: recorded_levels(self.latency_us),
        }
    }
}

impl StreamStats {
    /// The latencies have the precision of this library, and there are no more of them than
    /// messages received.
    pub open spec fn wf(self) -> bool {
        &&& histogram_digits(self.latency_us) == LATENCY_DIGITS
        &&& self@.levels.len() <= self@.received
    }

    /// Statistics of nothing.
    pub fn new() -> (s: StreamStats)
        ensures
            s.wf(),
            s@ == StatsView::fresh(),
    {
        StreamStats {
            messages_received: 0,
            total_bytes_received: 0,
            next_expected_seq: HashMap::new(),
            messages_lost: 0,
            latency_us: LatencyHistogram::new(LATENCY_DIGITS),
        }
    }

    fn expected_for(&self, stream_id: u64) -> (r: u64)
        ensures
            r == self@.next_expected(stream_id),
    {
        match self.next_expected_seq.get(&stream_id) {
            Some(seq) => *seq,
            None => 0,
        }
    }

    /// Whether the counters can take one more message.
    pub fn can_record(&self, data: &[u8]) -> (r: bool)
        ensures
            r == self@.can_receive(data@),
    {
        if self.messages_received == u64::MAX || data.len() as u64 > u64::MAX
            - self.total_bytes_received {
            return false;
        }
        match decode_header(data) {
            None => true,
            Some((_, seq, stream_id)) => {
                let expected: u64 = self.expected_for(stream_id);
                seq < u64::MAX && (seq <= expected || seq - expected <= u64::MAX
                    - self.messages_lost)
            },
        }
    }

    /// Counts a message that arrived at `recv_ns`, notes its latency, and finds how many messages
    /// of its stream were skipped before it.
    pub fn record(&mut self, data: &[u8], recv_ns: u64)
        requires
            old(self).wf(),
            old(self)@.can_receive(data@),
        ensures
            final(self).wf(),
            final(self)@ == old(self)@.receive(data@, recv_ns),
            decoded(data@) matches Some(h) ==> {
                let sample = latency_sample(recv_ns, h.producer_ts_ns);
                let level = level_of(LATENCY_DIGITS, sample);
                &&& final(self)@.levels == old(self)@.levels.insert(level)
                &&& level <= sample
                &&& (sample - level) * 10_000 <= sample
                &&& sample < 32_768 ==> level == sample
            },
    {
        let size: u64 = data.len() as u64;
        self.messages_received = self.messages_received + 1;
        self.total_bytes_received = self.total_bytes_received + size;
        if let Some((ts_ns, seq, stream_id)) = decode_header(data) {
            let latency: u64 = if recv_ns >= ts_ns {
                (recv_ns - ts_ns) / 1000
            } else {
                0
            };
            let sample: u64 = if latency < 1 {
                1
            } else {
                latency
            };
            self.latency_us.record(sample);
            proof {
                lemma_latency_resolution();
                law_levels_are_close(LATENCY_DIGITS, sample);
            }
            let expected: u64 = self.expected_for(stream_id);
            if seq > expected {
                self.messages_lost = self.messages_lost + (seq - expected);
            }
            self.next_expected_seq.insert(stream_id, seq + 1);
        }
    }

    /// Whether the counters can take those of the other statistics.
    pub fn can_merge(&self, other: &StreamStats) -> (r: bool)
        ensures
            r == self@.can_merge(other@),
    {
        other.messages_received <= u64::MAX - self.messages_received && other.total_bytes_received
            <= u64::MAX - self.total_bytes_received && other.messages_lost <= u64::MAX
            - self.messages_lost
    }

    /// Adds the counts and latencies of other statistics.
    pub fn merge(&mut self, other: &StreamStats)
        requires
            old(self).wf(),
            other.wf(),
            old(self)@.can_merge(other@),
        ensures
            final(self).wf(),
            final(self)@ == old(self)@.merge(other@),
    {
        self.messages_received = self.messages_received + other.messages_received;
        self.total_bytes_received = self.total_bytes_received + other.total_bytes_received;
        self.messages_lost = self.messages_lost + other.messages_lost;
        self.latency_us.merge(&other.latency_us);
    }

    /// The throughput of a run of the given length.
    pub fn achieved_gbps(&self, run_duration_secs: u64) -> (r: Ratio)
        ensures
            r.wf(),
            r == throughput_gbps(self.total_bytes_received, run_duration_secs),
    {
        throughput(self.total_bytes_received, run_duration_secs)
    }
}

/// The latency of a message is the time between its sending and its arrival, and nothing else: one
/// that was sent at any time and arrived `d` nanoseconds later adds one sample of `d` divided by
/// 1000 microseconds, or of one microsecond where that is less. The sample is kept exactly below
/// 32.768 milliseconds, and to a ten-thousandth above.
pub proof fn law_latency_is_the_time_between(
    s: StatsView,
    buf: Seq<u8>,
    ts: u64,
    d: u64,
    seq: u64,
    stream_id: u64,
)
    requires
        buf.len() >= HEADER_LEN,
        ts + d <= u64::MAX,
    ensures
        ({
            let data = encoded(buf, Header { producer_ts_ns: ts, seq, stream_id });
            let after = s.receive(data, (ts + d) as u64).levels;
            let sample: int = if d < 2000 {
                1
            } else {
                d as int / 1000
            };
            exists|level: u64|
                {
                    &&& after == #[trigger] s.levels.insert(level)
                    &&& level <= sample
                    &&& (sample - level) * 10_000 <= sample
                    &&& sample < 32_768 ==> level == sample
                    &&& level == level_of(LATENCY_DIGITS, sample as u64)
                }
        }),
{
    let h = Header { producer_ts_ns: ts, seq, stream_id };
    law_header_round_trip(buf, h);
    let sample = latency_sample((ts + d) as u64, ts);
    lemma_latency_resolution();
    law_levels_are_close(LATENCY_DIGITS, sample);
    let level = level_of(LATENCY_DIGITS, sample);
    let after = s.receive(encoded(buf, h), (ts + d) as u64).levels;
    assert(after == s.levels.insert(level));
}

/// Moving both clocks by the same amount changes no latency.
pub proof fn law_latency_ignores_the_hour(
    s: StatsView,
    buf: Seq<u8>,
    a: u64,
    b: u64,
    d: u64,
    seq: u64,
    stream_id: u64,
)
    requires
        buf.len() >= HEADER_LEN,
        a + d <= u64::MAX,
        b + d <= u64::MAX,
    ensures
        s.receive(
            encoded(buf, Header { producer_ts_ns: a, seq, stream_id }),
            (a + d) as u64,
        ) == s.receive(
            encoded(buf, Header { producer_ts_ns: b, seq, stream_id }),
            (b + d) as u64,
        ),
{
    let (x, y) = (
        Header { producer_ts_ns: a, seq, stream_id },
        Header { producer_ts_ns: b, seq, stream_id },
    );
    law_header_round_trip(buf, x);
    law_header_round_trip(buf, y);
    assert(latency_sample((a + d) as u64, a) == latency_sample((b + d) as u64, b));
}

/// A message that arrives before it was sent, by the clocks, has a latency of one microsecond.
pub proof fn law_latency_is_never_negative(
    s: StatsView,
    buf: Seq<u8>,
    ts: u64,
    recv_ns: u64,
    seq: u64,
    stream_id: u64,
)
    requires
        buf.len() >= HEADER_LEN,
        recv_ns < ts,
    ensures
        s.receive(
            encoded(buf, Header { producer_ts_ns: ts, seq, stream_id }),
            recv_ns,
        ).levels == s.levels.insert(1),
{
    law_header_round_trip(buf, Header { producer_ts_ns: ts, seq, stream_id });
    lemma_latency_resolution();
    law_levels_are_close(LATENCY_DIGITS, 1);
}

/// What one message adds: itself, its bytes, and the messages between the number that should have
/// come on its stream and its own. Behind it the next number should come; on other streams nothing
/// changes.
pub proof fn law_one_message(
    s: StatsView,
    buf: Seq<u8>,
    h: Header,
    recv_ns: u64,
    other: u64,
)
    requires
        buf.len() >= HEADER_LEN,
        h.seq < u64::MAX,
        other != h.stream_id,
    ensures
        ({
            let after = s.receive(encoded(buf, h), recv_ns);
            let due = if s.expected.contains_key(h.stream_id) {
                s.expected[h.stream_id] as int
            } else {
                0
            };
            &&& after.received == s.received + 1
            &&& after.bytes == s.bytes + buf.len()
            &&& after.levels.len() == s.levels.len() + 1
            &&& h.seq <= due ==> after.lost == s.lost
            &&& h.seq > due ==> after.lost + due == s.lost + h.seq
            &&& after.expected.contains_key(h.stream_id)
            &&& after.expected[h.stream_id] == h.seq + 1
            &&& after.expected.contains_key(other) <==> s.expected.contains_key(other)
            &&& s.expected.contains_key(other) ==> after.expected[other] == s.expected[other]
        }),
{
    law_header_round_trip(buf, h);
}

/// A message too short for a header adds itself and its bytes, and nothing else.
pub proof fn law_one_short_message(s: StatsView, data: Seq<u8>, recv_ns: u64)
    requires
        data.len() < 24,
    ensures
        s.receive(data, recv_ns) == (StatsView {
            received: s.received + 1,
            bytes: s.bytes + data.len(),
            ..s
        }),
{
}

/// The counters take a message exactly if all of them fit in 64 bits afterwards, and so does the
/// number behind the one that came.
pub proof fn law_counters_take_what_fits(s: StatsView, data: Seq<u8>, recv_ns: u64)
    requires
        s.received <= u64::MAX,
        s.bytes <= u64::MAX,
        s.lost <= u64::MAX,
    ensures
        ({
            let after = s.receive(data, recv_ns);
            s.can_receive(data) <==> {
                &&& after.received <= 0xffff_ffff_ffff_ffff
                &&& after.bytes <= 0xffff_ffff_ffff_ffff
                &&& after.lost <= 0xffff_ffff_ffff_ffff
                &&& decoded(data) matches Some(h) ==> h.seq < 0xffff_ffff_ffff_ffff
            }
        }),
{
}

/// Merging adds up messages, bytes, losses, and the samples of each level; statistics can be merged
/// exactly if the sums fit in 64 bits.
pub proof fn law_merging_adds_up(a: StatsView, b: StatsView, level: u64)
    ensures
        a.merge(b).received == a.received + b.received,
        a.merge(b).bytes == a.bytes + b.bytes,
        a.merge(b).lost == a.lost + b.lost,
        a.merge(b).levels.count(level) == a.levels.count(level) + b.levels.count(level),
        a.merge(b).expected == a.expected,
        a.can_merge(b) <==> a.received + b.received <= 0xffff_ffff_ffff_ffff && a.bytes + b.bytes
            <= 0xffff_ffff_ffff_ffff && a.lost + b.lost <= 0xffff_ffff_ffff_ffff,
        StatsView::fresh().received == 0 && StatsView::fresh().bytes == 0
            && StatsView::fresh().lost == 0 && StatsView::fresh().levels.len() == 0,
{
}

/// A throughput times the length of the run is the number of bits; a run of no length has none.
pub proof fn law_throughput_times_time(bytes: u64, secs: u64)
    ensures
        throughput_gbps(bytes, secs).denominator > 0,
        secs > 0 ==> throughput_gbps(bytes, secs).numerator * (secs * 1_000_000_000) == 8 * bytes
            * throughput_gbps(bytes, secs).denominator,
        secs == 0 ==> throughput_gbps(bytes, secs).numerator == 0,
{
    if secs > 0 {
        let t = throughput_gbps(bytes, secs);
        assert(t.numerator * (secs * 1_000_000_000) == 8 * bytes * t.denominator)
            by (nonlinear_arith)
            requires
                t.numerator == bytes * 8,
                t.denominator == secs * 1_000_000_000,
        ;
    }
}

} // verus!
