//! What a run comes to for each stream: the consumer's figures, and the producer's counts.
use crate::by_id::{
    held_by_id, labels_differ, law_ids_are_summed, law_report_adds_up_the_ids, topics_of_ids,
};
use crate::config::{BrokerType, Config};
use crate::latency::{
    highest_level, is_percentile, law_highest_level, law_levels_are_close, law_levels_keep_order,
    law_values_of_a_level, level_of, level_top, value_at_percentile,
};
use crate::ratio::Ratio;
use crate::stats::{
    lemma_latency_resolution, throughput, throughput_gbps, StatsView, StreamStats, LATENCY_DIGITS,
};
use crate::streams::ActiveStream;
use crate::table::{
    aggregated, held, law_aggregate_is_the_sum, partition_count, sum_below, StatsTable,
};
use crate::text::same_text;
use vstd::multiset::Multiset;
use vstd::prelude::*;

verus! {

/// What a consumer reports of one stream.
#[derive(Debug, Clone, Copy)]
pub struct StreamSummary {
    pub size_bytes: u64,
    pub size_label: &'static str,
    pub messages_received: u64,
    pub messages_lost: u64,
    pub total_bytes_received: u64,
    /// Latencies in microseconds.
    pub p50_us: u64,
    pub p95_us: u64,
    pub p99_us: u64,
    pub max_us: u64,
}

/// Whether a value is 0 where there are no samples, and otherwise is the highest of a level
/// counted: of the one where the percentile lies, as far as 32 bits can count the samples.
pub open spec fn percentile_holds(levels: Multiset<u64>, percent: u32, value: u64) -> bool {
    &&& levels.len() == 0 ==> value == 0
    &&& levels.len() > 0 ==> {
        &&& levels.contains(level_of(LATENCY_DIGITS, value))
        &&& value == level_top(LATENCY_DIGITS, level_of(LATENCY_DIGITS, value))
    }
    &&& 0 < levels.len() <= u32::MAX ==> is_percentile(
        levels,
        percent,
        level_of(LATENCY_DIGITS, value),
    )
}

impl StreamSummary {
    /// Whether the figures are those of the given statistics.
    pub open spec fn reports(self, stream: ActiveStream, s: StatsView) -> bool {
        &&& self.size_bytes == stream.bytes
        &&& self.size_label@ == stream.label@
        &&& self.messages_received == s.received
        &&& self.messages_lost == s.lost
        &&& self.total_bytes_received == s.bytes
        &&& self.p50_us == value_at_percentile(LATENCY_DIGITS, s.levels, 50)
        &&& self.p95_us == value_at_percentile(LATENCY_DIGITS, s.levels, 95)
        &&& self.p99_us == value_at_percentile(LATENCY_DIGITS, s.levels, 99)
        &&& self.max_us == if s.levels.len() == 0 {
            0
        } else {
            level_top(LATENCY_DIGITS, highest_level(s.levels))
        }
        &&& self.p50_us <= self.p95_us <= self.p99_us
        &&& percentile_holds(s.levels, 50, self.p50_us)
        &&& percentile_holds(s.levels, 95, self.p95_us)
        &&& percentile_holds(s.levels, 99, self.p99_us)
    }

    /// The throughput of a run of the given length.
    pub fn achieved_gbps(&self, run_duration_secs: u64) -> (r: Ratio)
        ensures
            r.wf(),
            r == throughput_gbps(self.total_bytes_received, run_duration_secs),
    {
        throughput(self.total_bytes_received, run_duration_secs)
    }
}

/// The figures of the statistics of a stream.
pub fn summarize(stream: &ActiveStream, stats: &StreamStats) -> (r: StreamSummary)
    requires
        stats.wf(),
    ensures
        r.reports(*stream, stats@),
        r.size_bytes == stream.bytes,
        r.size_label@ == stream.label@,
        r.messages_received == stats.messages_received,
        r.messages_lost == stats.messages_lost,
        r.total_bytes_received == stats.total_bytes_received,
{
    StreamSummary {
        size_bytes: stream.bytes,
        size_label: stream.label,
        messages_received: stats.messages_received,
        messages_lost: stats.messages_lost,
        total_bytes_received: stats.total_bytes_received,
        p50_us: stats.latency_us.percentile(50),
        p95_us: stats.latency_us.percentile(95),
        p99_us: stats.latency_us.percentile(99),
        max_us: stats.latency_us.max(),
    }
}

/// The latencies of a report come in order, however many samples there are.
pub proof fn law_latencies_in_order(r: StreamSummary, stream: ActiveStream, s: StatsView)
    requires
        r.reports(stream, s),
    ensures
        r.p50_us <= r.p95_us <= r.p99_us <= r.max_us,
{
    if s.levels.len() > 0 {
        law_highest_level(s.levels);
        let top = highest_level(s.levels);
        law_levels_keep_order(LATENCY_DIGITS, level_of(LATENCY_DIGITS, r.p99_us), top);
    }
}

/// The maximum of a report is close to the longest latency: no less, and more by no more than a
/// ten-thousandth of it. Below 32.768 milliseconds it is exact. The longest latency is any whose
/// level is the highest.
pub proof fn law_maximum_is_close(
    r: StreamSummary,
    stream: ActiveStream,
    s: StatsView,
    sample: u64,
)
    requires
        r.reports(stream, s),
        s.levels.len() > 0,
        level_of(LATENCY_DIGITS, sample) == highest_level(s.levels),
    ensures
        sample <= r.max_us,
        (r.max_us - sample) * 10_000 <= sample,
        sample < 32_768 ==> r.max_us == sample,
{
    lemma_latency_resolution();
    law_levels_are_close(LATENCY_DIGITS, sample);
    law_values_of_a_level(LATENCY_DIGITS, sample);
}

/// A percentile of a report is close to every latency of the level that it lies in: no less, and
/// more by no more than a ten-thousandth of it. Below 32.768 milliseconds it is exact.
pub proof fn law_percentiles_are_close(
    levels: Multiset<u64>,
    percent: u32,
    value: u64,
    sample: u64,
)
    requires
        levels.len() > 0,
        percentile_holds(levels, percent, value),
        level_of(LATENCY_DIGITS, sample) == level_of(LATENCY_DIGITS, value),
    ensures
        sample <= value,
        (value - sample) * 10_000 <= sample,
        sample < 32_768 ==> value == sample,
{
    lemma_latency_resolution();
    law_levels_are_close(LATENCY_DIGITS, sample);
    law_values_of_a_level(LATENCY_DIGITS, sample);
}

/// Over how many topics the statistics of a stream are spread.
pub open spec fn topics_per_stream(c: Config) -> nat {
    if c.broker_type == BrokerType::Nats {
        1
    } else {
        c.num_partitions as nat
    }
}

/// What a table holds for one stream of a run.
pub open spec fn stream_total(
    c: Config,
    table: Map<Seq<char>, StatsView>,
    stream: ActiveStream,
) -> StatsView {
    aggregated(table, c.topic_prefix@, stream.label@, topics_per_stream(c))
}

/// The figures of each stream of a run, added up over its topics; `None` where a count does not
/// fit in 64 bits.
pub fn consumer_summaries(c: &Config, table: &StatsTable, streams: &Vec<ActiveStream>) -> (r:
    Option<Vec<StreamSummary>>)
    requires
        table.wf(),
    ensures
        r is Some <==> forall|i: int|
            0 <= i < streams@.len() ==> stream_total(
                *c,
                table@,
                #[trigger] streams@[i],
            ).fits(),
        r matches Some(rows) ==> {
            &&& rows@.len() == streams@.len()
            &&& forall|i: int|
                0 <= i < rows@.len() ==> (#[trigger] rows@[i]).reports(
                    streams@[i],
                    stream_total(*c, table@, streams@[i]),
                )
            &&& forall|i: int|
                0 <= i < rows@.len() ==> (#[trigger] rows@[i]).reports(
                    streams@[i],
                    match c.broker_type {
                        BrokerType::Nats => aggregated(
                            table@,
                            c.topic_prefix@,
                            streams@[i].label@,
                            1,
                        ),
                        BrokerType::Redpanda | BrokerType::Kafka | BrokerType::Grpc => aggregated(
                            table@,
                            c.topic_prefix@,
                            streams@[i].label@,
                            c.num_partitions as nat,
                        ),
                    },
                )
        },
{
    let topics: usize = partition_count(&c.broker_type, c.num_partitions);
    let mut rows: Vec<StreamSummary> = Vec::new();
    for k in 0..streams.len()
        invariant
            table.wf(),
            topics == topics_per_stream(*c),
            rows@.len() == k,
            forall|i: int|
                0 <= i < k ==> stream_total(*c, table@, #[trigger] streams@[i]).fits(),
            forall|i: int|
                0 <= i < k ==> (#[trigger] rows@[i]).reports(
                    streams@[i],
                    stream_total(*c, table@, streams@[i]),
                ),
    {
        let stream = streams[k];
        match table.aggregate(c.topic_prefix.as_str(), stream.label, topics) {
            Some(sum) => {
                rows.push(summarize(&stream, &sum));
            },
            None => {
                assert(!stream_total(*c, table@, streams@[k as int]).fits());
                return None;
            },
        }
    }
    Some(rows)
}

/// What one producer task has sent.
#[derive(Debug, Clone, Copy)]
pub struct SentCount {
    pub size_bytes: u64,
    pub size_label: &'static str,
    pub sent: u64,
}

/// What the tasks of one stream have sent together.
pub open spec fn sent_on(counts: Seq<SentCount>, bytes: u64, label: Seq<char>) -> nat
    decreases counts.len(),
{
    if counts.len() == 0 {
        0
    } else {
        sent_on(counts.drop_last(), bytes, label) + if counts.last().size_bytes == bytes
            && counts.last().size_label@ == label {
            counts.last().sent as nat
        } else {
            0
        }
    }
}

proof fn lemma_sent_prefix(counts: Seq<SentCount>, k: int, bytes: u64, label: Seq<char>)
    requires
        0 <= k <= counts.len(),
    ensures
        sent_on(counts.take(k), bytes, label) <= sent_on(counts, bytes, label),
    decreases counts.len() - k,
{
    if k < counts.len() {
        lemma_sent_prefix(counts, k + 1, bytes, label);
        assert(counts.take(k + 1).drop_last() =~= counts.take(k));
    } else {
        assert(counts.take(k) =~= counts);
    }
}

fn sent_on_stream(counts: &Vec<SentCount>, stream: &ActiveStream) -> (r: Option<u64>)
    ensures
        r is Some <==> sent_on(counts@, stream.bytes, stream.label@) <= u64::MAX,
        r matches Some(n) ==> n == sent_on(counts@, stream.bytes, stream.label@),
{
    let mut sum: u64 = 0;
    let n: usize = counts.len();
    for k in 0..n
        invariant
            n == counts@.len(),
            sum == sent_on(counts@.take(k as int), stream.bytes, stream.label@),
    {
        let count = counts[k];
        assert(counts@.take(k + 1).drop_last() =~= counts@.take(k as int));
        if count.size_bytes == stream.bytes && same_text(count.size_label, stream.label) {
            if count.sent > u64::MAX - sum {
                proof {
                    lemma_sent_prefix(counts@, k + 1, stream.bytes, stream.label@);
                }
                return None;
            }
            sum = sum + count.sent;
        }
    }
    assert(counts@.take(n as int) =~= counts@);
    Some(sum)
}

/// What the tasks of each stream have sent together; `None` where a sum does not fit in 64 bits.
pub fn sent_per_stream(counts: &Vec<SentCount>, streams: &Vec<ActiveStream>) -> (r: Option<
    Vec<SentCount>,
>)
    ensures
        r is Some <==> forall|i: int|
            0 <= i < streams@.len() ==> sent_on(
                counts@,
                (#[trigger] streams@[i]).bytes,
                streams@[i].label@,
            ) <= u64::MAX,
        r matches Some(rows) ==> {
            &&& rows@.len() == streams@.len()
            &&& forall|i: int|
                0 <= i < rows@.len() ==> {
                    &&& (#[trigger] rows@[i]).size_bytes == streams@[i].bytes
                    &&& rows@[i].size_label@ == streams@[i].label@
                    &&& rows@[i].sent == sent_on(counts@, streams@[i].bytes, streams@[i].label@)
                }
        },
{
    let mut rows: Vec<SentCount> = Vec::new();
    for k in 0..streams.len()
        invariant
            rows@.len() == k,
            forall|i: int|
                0 <= i < k ==> sent_on(
                    counts@,
                    (#[trigger] streams@[i]).bytes,
                    streams@[i].label@,
                ) <= u64::MAX,
            forall|i: int|
                0 <= i < k ==> {
                    &&& (#[trigger] rows@[i]).size_bytes == streams@[i].bytes
                    &&& rows@[i].size_label@ == streams@[i].label@
                    &&& rows@[i].sent == sent_on(counts@, streams@[i].bytes, streams@[i].label@)
                },
    {
        let stream = streams[k];
        match sent_on_stream(counts, &stream) {
            Some(sent) => {
                rows.push(
                    SentCount { size_bytes: stream.bytes, size_label: stream.label, sent },
                );
            },
            None => {
                assert(sent_on(counts@, streams@[k as int].bytes, streams@[k as int].label@)
                    > u64::MAX);
                return None;
            },
        }
    }
    Some(rows)
}

/// It does not matter in which order the tasks of a run finish.
pub proof fn law_sent_counts_in_any_order(
    a: Seq<SentCount>,
    b: Seq<SentCount>,
    bytes: u64,
    label: Seq<char>,
)
    ensures
        sent_on(a + b, bytes, label) == sent_on(a, bytes, label) + sent_on(b, bytes, label),
        sent_on(a + b, bytes, label) == sent_on(b + a, bytes, label),
{
    lemma_sent_concat(a, b, bytes, label);
    lemma_sent_concat(b, a, bytes, label);
}

proof fn lemma_sent_concat(
    a: Seq<SentCount>,
    b: Seq<SentCount>,
    bytes: u64,
    label: Seq<char>,
)
    ensures
        sent_on(a + b, bytes, label) == sent_on(a, bytes, label) + sent_on(b, bytes, label),
    decreases b.len(),
{
    if b.len() == 0 {
        assert(a + b =~= a);
    } else {
        lemma_sent_concat(a, b.drop_last(), bytes, label);
        assert((a + b).drop_last() =~= a + b.drop_last());
    }
}

/// The figures of a stream cover every topic of it: with Redpanda, Kafka and gRPC the topics of all
/// partitions, with NATS its one topic. They are the sums over these of messages, bytes, losses and
/// samples.
pub proof fn law_figures_cover_all_partitions(
    r: StreamSummary,
    c: Config,
    table: Map<Seq<char>, StatsView>,
    stream: ActiveStream,
    level: u64,
)
    requires
        r.reports(stream, stream_total(c, table, stream)),
    ensures
        ({
            let (prefix, label) = (c.topic_prefix@, stream.label@);
            let n: nat = if c.broker_type == BrokerType::Nats {
                1
            } else {
                c.num_partitions as nat
            };
            &&& r.messages_received == sum_below(
                n,
                |p: nat| held(table, prefix, label, p, |s: StatsView| s.received),
            )
            &&& r.messages_lost == sum_below(
                n,
                |p: nat| held(table, prefix, label, p, |s: StatsView| s.lost),
            )
            &&& r.total_bytes_received == sum_below(
                n,
                |p: nat| held(table, prefix, label, p, |s: StatsView| s.bytes),
            )
            &&& stream_total(c, table, stream).levels.count(level) == sum_below(
                n,
                |p: nat| held(table, prefix, label, p, |s: StatsView| s.levels.count(level)),
            )
            &&& r.size_bytes == stream.bytes
            &&& r.size_label@ == stream.label@
        }),
{
    let n: nat = if c.broker_type == BrokerType::Nats {
        1
    } else {
        c.num_partitions as nat
    };
    assert(stream_total(c, table, stream) == aggregated(
        table,
        c.topic_prefix@,
        stream.label@,
        n,
    ));
    law_aggregate_is_the_sum(table, c.topic_prefix@, stream.label@, n, level);
}

/// What a gRPC server reports of a stream is what came under the ids of all its partitions: `size *
/// 1000` and the numbers behind it, one for each partition.
pub proof fn law_server_reports_all_ids(
    r: StreamSummary,
    c: Config,
    ids: Map<u64, StatsView>,
    streams: Seq<ActiveStream>,
    i: int,
)
    requires
        c.broker_type == BrokerType::Grpc,
        labels_differ(streams),
        0 <= i < streams.len(),
        r.reports(
            streams[i],
            stream_total(
                c,
                topics_of_ids(ids, c.topic_prefix@, streams, c.num_partitions as nat),
                streams[i],
            ),
        ),
    ensures
        ({
            let bytes = streams[i].bytes;
            let n = c.num_partitions as nat;
            &&& r.messages_received == sum_below(
                n,
                |p: nat| held_by_id(ids, bytes, p, |s: StatsView| s.received),
            )
            &&& r.messages_lost == sum_below(
                n,
                |p: nat| held_by_id(ids, bytes, p, |s: StatsView| s.lost),
            )
            &&& r.total_bytes_received == sum_below(
                n,
                |p: nat| held_by_id(ids, bytes, p, |s: StatsView| s.bytes),
            )
        }),
{
    let n = c.num_partitions as nat;
    let table = topics_of_ids(ids, c.topic_prefix@, streams, n);
    law_report_adds_up_the_ids(ids, c.topic_prefix@, streams, n, i, n);
    law_ids_are_summed(ids, streams[i].bytes, n, 0);
    assert(stream_total(c, table, streams[i]) == aggregated(
        table,
        c.topic_prefix@,
        streams[i].label@,
        n,
    ));
}

/// What the latencies of a report say of the samples: at least half of them lie at or below the
/// level of the median and at most half below it, and so for 95 and 99 percent. The maximum is no
/// lower than any sample's level, and is the highest value of the level of one.
pub proof fn law_latencies_divide_the_samples(r: StreamSummary, stream: ActiveStream, s: StatsView)
    requires
        r.reports(stream, s),
    ensures
        s.levels.len() == 0 ==> r.p50_us == 0 && r.p95_us == 0 && r.p99_us == 0 && r.max_us == 0,
        0 < s.levels.len() <= u32::MAX ==> {
            let (a, b, c) = (
                level_of(LATENCY_DIGITS, r.p50_us),
                level_of(LATENCY_DIGITS, r.p95_us),
                level_of(LATENCY_DIGITS, r.p99_us),
            );
            let n = s.levels.len();
            &&& 2 * s.levels.filter(|l: u64| l <= a).len() >= n
            &&& 2 * s.levels.filter(|l: u64| l < a).len() <= n
            &&& 100 * s.levels.filter(|l: u64| l <= b).len() >= 95 * n
            &&& 100 * s.levels.filter(|l: u64| l < b).len() <= 95 * n
            &&& 100 * s.levels.filter(|l: u64| l <= c).len() >= 99 * n
            &&& 100 * s.levels.filter(|l: u64| l < c).len() <= 99 * n
        },
        forall|l: u64| #[trigger] s.levels.contains(l) ==> l <= r.max_us,
        s.levels.len() > 0 ==> exists|l: u64| #[trigger]
            s.levels.contains(l) && r.max_us == level_top(LATENCY_DIGITS, l),
{
    if s.levels.len() > 0 {
        law_highest_level(s.levels);
        let top = highest_level(s.levels);
        assert(s.levels.contains(top) && r.max_us == level_top(LATENCY_DIGITS, top));
        assert forall|l: u64| #[trigger] s.levels.contains(l) implies l <= r.max_us by {
            law_levels_are_close(LATENCY_DIGITS, top);
            law_values_of_a_level(LATENCY_DIGITS, top);
        }
    } else {
        assert(forall|l: u64| s.levels.count(l) == 0) by {
            assert(s.levels =~= Multiset::empty());
        }
    }
}

/// What a task has sent counts for its own stream, by size and label, and for no other.
pub proof fn law_sent_counts_for_its_stream(count: SentCount, bytes: u64, label: Seq<char>)
    ensures
        sent_on(Seq::empty(), bytes, label) == 0,
        count.size_bytes == bytes && count.size_label@ == label ==> sent_on(
            seq![count],
            bytes,
            label,
        ) == count.sent,
        count.size_bytes != bytes || count.size_label@ != label ==> sent_on(
            seq![count],
            bytes,
            label,
        ) == 0,
{
    assert(seq![count].drop_last() =~= Seq::empty());
    assert(sent_on(seq![count].drop_last(), bytes, label) == 0);
}

} // verus!
