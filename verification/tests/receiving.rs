use broker_benchmarker::by_id::{ServedCall, StatsById};
use broker_benchmarker::config::{parse_config, BrokerType, Config, RawConfig, RunMode};
use broker_benchmarker::latency::LatencyHistogram;
use broker_benchmarker::message::encode_message;
use broker_benchmarker::pacing::{PaceAction, Pacer};
use broker_benchmarker::ratio::Ratio;
use broker_benchmarker::session::{
    consumer_group, server_lifetime_secs, server_url, Delivery, TaskReader,
};
use broker_benchmarker::stats::StreamStats;
use broker_benchmarker::streams::active_streams;
use broker_benchmarker::table::{partition_count, StatsTable};

/// A message of 64 bytes.
fn message(ts: u64, seq: u64, stream: u64) -> Vec<u8> {
    let mut buf = vec![0u8; 64];
    encode_message(&mut buf, ts, seq, stream);
    buf
}

/// Statistics of messages with the given sequence numbers.
fn stats_of(stream: u64, seqs: &[u64]) -> StreamStats {
    let mut stats = StreamStats::new();
    for seq in seqs {
        stats.record(&message(0, *seq, stream), 5_000);
    }
    stats
}

fn settings(broker: &str, partitions: &str) -> Config {
    let raw = RawConfig {
        broker_type: Some(broker.to_string()),
        topic_prefix: Some("bench".to_string()),
        partitions: Some(partitions.to_string()),
        run_id: Some("42".to_string()),
        ..RawConfig::default()
    };
    parse_config(&raw, Some(1e9f64.to_bits()), 0).unwrap()
}

#[test]
fn a_histogram_of_small_values_is_exact() {
    let mut h = LatencyHistogram::new(4);
    assert_eq!((h.percentile(50), h.max()), (0, 0));
    for v in 1..=100 {
        h.record(v);
    }
    assert_eq!(h.percentile(50), 50);
    assert_eq!(h.percentile(95), 95);
    assert_eq!(h.percentile(99), 99);
    assert_eq!(h.max(), 100);
    assert_eq!(h.percentile(0), 1);
}

#[test]
fn a_histogram_of_large_values_keeps_its_digits() {
    let mut h = LatencyHistogram::new(4);
    h.record(123_456_789);
    assert!(h.max() >= 123_456_789);
    assert!(h.max() - 123_456_789 <= 12_345);
    assert!(h.percentile(50) >= 123_450_000 && h.percentile(50) <= 123_470_000);
    // Above 32768 two values share a level, above 65536 four, and so on.
    let mut one = LatencyHistogram::new(4);
    one.record(40_000);
    assert_eq!((one.percentile(50), one.max()), (40_001, 40_001));
    let mut two = LatencyHistogram::new(4);
    two.record(100_001);
    assert_eq!((two.percentile(95), two.percentile(0), two.max()), (100_003, 100_000, 100_003));
    let mut three = LatencyHistogram::new(4);
    three.record(32_767);
    assert_eq!(three.max(), 32_767);
    h.record(1 << 61);
    assert!(h.max() >= 1 << 61);
}

#[test]
fn histograms_add_up() {
    let mut a = LatencyHistogram::new(4);
    let mut b = LatencyHistogram::new(4);
    for v in 1..=50 {
        a.record(v);
        b.record(v + 50);
    }
    a.merge(&b);
    assert_eq!(a.percentile(50), 50);
    assert_eq!(a.percentile(99), 99);
    assert_eq!(a.max(), 100);
    assert_eq!(b.percentile(50), 75);
}

#[test]
fn latencies_are_at_least_a_microsecond() {
    let mut stats = StreamStats::new();
    stats.record(&message(1_000_000, 0, 1), 1_000_500);
    assert_eq!(stats.latency_us.max(), 1);
    // The clocks disagree: it seems to arrive before it was sent.
    stats.record(&message(1_000_000, 1, 1), 0);
    assert_eq!(stats.latency_us.max(), 1);
    stats.record(&message(1_000_000, 2, 1), 8_999_999);
    assert_eq!(stats.latency_us.max(), 7_999);
    assert_eq!(stats.latency_us.percentile(50), 1);
}

#[test]
fn messages_without_a_header_only_count() {
    let mut stats = StreamStats::new();
    stats.record(&[0u8; 23], 1_000);
    assert_eq!(stats.messages_received, 1);
    assert_eq!(stats.total_bytes_received, 23);
    assert_eq!(stats.messages_lost, 0);
    assert_eq!(stats.latency_us.max(), 0);
    assert!(stats.next_expected_seq.is_empty());
}

#[test]
fn losses_are_the_missing_numbers() {
    assert_eq!(stats_of(7, &[0, 1, 2, 3]).messages_lost, 0);
    assert_eq!(stats_of(7, &[0, 4, 5, 9]).messages_lost, 6);
    // The first of a stream should be number 0.
    assert_eq!(stats_of(7, &[3]).messages_lost, 3);
}

#[test]
fn a_late_message_moves_the_count_back() {
    let stats = stats_of(7, &[0, 5, 2, 3]);
    assert_eq!(stats.messages_lost, 4);
    assert_eq!(stats.next_expected_seq[&7], 4);
    assert_eq!(stats_of(7, &[0, 5, 2, 6]).messages_lost, 7);
}

#[test]
fn streams_are_independent() {
    let mut stats = StreamStats::new();
    for (seq, stream) in [(0, 1), (0, 2), (1, 1), (3, 2), (2, 1)] {
        stats.record(&message(0, seq, stream), 1_000);
    }
    assert_eq!(stats.messages_received, 5);
    assert_eq!(stats.messages_lost, 2);
    assert_eq!(stats.next_expected_seq[&1], 3);
    assert_eq!(stats.next_expected_seq[&2], 4);
}

#[test]
fn counters_say_when_they_are_full() {
    let mut stats = StreamStats::new();
    assert!(stats.can_record(&message(0, 5, 1)));
    assert!(!stats.can_record(&message(0, u64::MAX, 1)));
    stats.messages_lost = u64::MAX - 4;
    assert!(stats.can_record(&message(0, 4, 1)));
    assert!(!stats.can_record(&message(0, 5, 1)));
    assert!(!stats.can_merge(&stats_of(2, &[5])));
    stats.messages_lost = 0;
    stats.total_bytes_received = u64::MAX - 63;
    assert!(!stats.can_record(&message(0, 0, 1)));
    stats.total_bytes_received = 0;
    stats.messages_received = u64::MAX;
    assert!(!stats.can_record(&message(0, 0, 1)));
}

#[test]
fn merged_statistics_add_up() {
    let mut a = stats_of(1, &[0, 2]);
    let b = stats_of(2, &[1, 2, 3]);
    assert!(a.can_merge(&b));
    a.merge(&b);
    assert_eq!(a.messages_received, 5);
    assert_eq!(a.total_bytes_received, 5 * 64);
    assert_eq!(a.messages_lost, 2);
    assert_eq!(a.latency_us.percentile(50), 5);
    // What should come next is kept for the streams of the first only.
    assert_eq!(a.next_expected_seq.len(), 1);
}

#[test]
fn throughput_of_a_run() {
    let mut stats = StreamStats::new();
    stats.total_bytes_received = 750;
    assert_eq!(stats.achieved_gbps(0), Ratio { numerator: 0, denominator: 1 });
    assert_eq!(stats.achieved_gbps(3), Ratio { numerator: 6_000, denominator: 3_000_000_000 });
}

#[test]
fn a_table_counts_its_own_topics() {
    let topics = vec!["a".to_string(), "b".to_string(), "a".to_string()];
    let mut t = StatsTable::with_topics(&topics);
    assert!(t.can_record("a", &message(0, 0, 1)));
    t.record("a", &message(0, 0, 1), 1_000);
    t.record("a", &message(0, 1, 1), 1_000);
    t.record("c", &message(0, 0, 1), 1_000);
    assert_eq!(t.get("a").unwrap().messages_received, 2);
    assert_eq!(t.get("b").unwrap().messages_received, 0);
    assert!(t.get("c").is_none());
    assert_eq!(t.total_received(), 2);
    t.insert("a".to_string(), stats_of(1, &[0]));
    assert_eq!(t.get("a").unwrap().messages_received, 1);
}

#[test]
fn tables_merge_topic_by_topic() {
    let mut sum = StatsTable::with_topics(&vec!["a".to_string(), "b".to_string()]);
    let mut other = StatsTable::new();
    other.insert("a".to_string(), stats_of(1, &[0, 1]));
    other.insert("c".to_string(), stats_of(2, &[4]));
    assert!(sum.can_merge_table(&other));
    sum.merge_table(&other);
    assert!(sum.can_merge_topic("a", &stats_of(3, &[0])));
    sum.merge_topic("a", &stats_of(3, &[0]));
    assert_eq!(sum.get("a").unwrap().messages_received, 3);
    assert_eq!(sum.get("b").unwrap().messages_received, 0);
    assert_eq!(sum.get("c").unwrap().messages_lost, 4);
    let mut full = StreamStats::new();
    full.total_bytes_received = u64::MAX;
    other.insert("b".to_string(), full);
    assert!(sum.can_merge_table(&other));
    sum.merge_table(&other);
    assert!(!sum.can_merge_table(&other));
}

#[test]
fn partitions_of_a_stream_add_up() {
    let mut t = StatsTable::new();
    t.insert("bench_4kb_0".to_string(), stats_of(1, &[0, 1]));
    t.insert("bench_4kb_2".to_string(), stats_of(2, &[1]));
    t.insert("bench_64kb_0".to_string(), stats_of(3, &[0]));
    assert_eq!(t.aggregate("bench", "4kb", 3).unwrap().messages_received, 3);
    assert_eq!(t.aggregate("bench", "4kb", 2).unwrap().messages_received, 2);
    assert_eq!(t.aggregate("bench", "80mb", 3).unwrap().messages_received, 0);
    let mut full = StreamStats::new();
    full.messages_received = u64::MAX;
    t.insert("bench_4kb_1".to_string(), full);
    assert!(t.aggregate("bench", "4kb", 3).is_none());
    assert_eq!(partition_count(&BrokerType::Nats, 16), 1);
    assert_eq!(partition_count(&BrokerType::Kafka, 16), 16);
    assert_eq!(partition_count(&BrokerType::Redpanda, 16), 16);
    assert_eq!(partition_count(&BrokerType::Grpc, 16), 16);
}

#[test]
fn a_server_keeps_streams_apart() {
    let mut s = StatsById::new();
    for (seq, id) in [(0, 256_000), (0, 256_001), (1, 256_000), (2, 256_001)] {
        let m = message(0, seq, id);
        assert!(s.can_record(&m));
        s.record(&m, 1_000);
    }
    s.record(&[0u8; 10], 1_000);
    assert!(!s.can_record(&message(0, u64::MAX, 5)));
    assert_eq!(s.get(256_000).unwrap().messages_received, 2);
    assert_eq!(s.get(256_001).unwrap().messages_lost, 1);
    assert!(s.get(256_002).is_none());
    let streams = active_streams(&RunMode::Combined, Ratio { numerator: 1_000_000_000, denominator: 1 }, 100);
    let table = s.to_topics("bench", &streams, 2);
    assert_eq!(table.get("bench_256b_0").unwrap().messages_received, 2);
    assert_eq!(table.get("bench_256b_1").unwrap().messages_lost, 1);
    assert!(table.get("bench_24b_0").is_none());
    assert_eq!(table.total_received(), 4);
    assert_eq!(table.aggregate("bench", "256b", 2).unwrap().messages_received, 4);
}

#[test]
fn a_task_takes_what_is_delivered() {
    let mut r = TaskReader::new(&vec!["a".to_string()]);
    let m = message(0, 0, 1);
    let known = Delivery::Message { topic: "a", payload: Some(&m), recv_ns: 2_000 };
    let unknown = Delivery::Message { topic: "z", payload: Some(&m), recv_ns: 2_000 };
    let empty = Delivery::Message { topic: "a", payload: None, recv_ns: 2_000 };
    assert!(r.can_handle(&known));
    assert_eq!(r.handle(&known), 64);
    assert_eq!(r.handle(&unknown), 64);
    assert_eq!(r.handle(&empty), 0);
    assert_eq!(r.handle(&Delivery::Failed), 0);
    assert_eq!(r.handle(&Delivery::Idle), 0);
    assert!(r.keeps_reading(false));
    assert!(!r.keeps_reading(true));
    assert_eq!(r.handle(&Delivery::Closed), 0);
    assert!(!r.keeps_reading(false));
    assert_eq!(r.table.total_received(), 1);
    let last = message(0, u64::MAX, 1);
    assert!(!r.can_handle(&Delivery::Message { topic: "a", payload: Some(&last), recv_ns: 0 }));
    assert!(r.can_handle(&Delivery::Message { topic: "z", payload: Some(&last), recv_ns: 0 }));
}

#[test]
fn connections_of_a_run() {
    let c = settings("grpc", "4");
    assert_eq!(consumer_group(&c, 3), "bench-42-3");
    assert_ne!(consumer_group(&c, 1), consumer_group(&c, 11));
    assert_eq!(server_url(&c), "http://0.0.0.0:50051");
    assert_eq!(server_lifetime_secs(&c), Some(140));
    let long = Config { run_duration_secs: u64::MAX - 15, ..settings("grpc", "4") };
    assert_eq!(server_lifetime_secs(&long), None);
    let fits = Config { run_duration_secs: u64::MAX - 20, ..settings("grpc", "4") };
    assert_eq!(server_lifetime_secs(&fits), Some(u64::MAX));
}

#[test]
fn one_topic_stands_for_all_partitions() {
    let mut t = StatsTable::with_topics(&vec!["bench_4kb_0".to_string()]);
    t.merge_topic("bench_4kb_0", &stats_of(1, &[0, 1, 4]));
    for partitions in [1, 2, 16] {
        let sum = t.aggregate("bench", "4kb", partitions).unwrap();
        assert_eq!((sum.messages_received, sum.messages_lost), (3, 2));
    }
}

#[test]
fn a_call_counts_messages_without_a_header_too() {
    let mut stats = StatsById::new();
    let mut call = ServedCall::new();
    assert!(call.can_take(&stats, &message(0, 0, 9)));
    call.take(&mut stats, &message(0, 0, 9), 1_000);
    call.take(&mut stats, &[1, 2, 3], 1_000);
    assert_eq!(call.messages_received, 2);
    assert_eq!(stats.get(9).unwrap().messages_received, 1);
    assert!(!call.can_take(&stats, &message(0, u64::MAX, 9)));
    let full = ServedCall { messages_received: u64::MAX };
    assert!(!full.can_take(&stats, &message(0, 1, 9)));
}

#[test]
fn everything_that_was_sent_arrives() {
    let mut pacer = Pacer::new(4);
    let mut stats = StreamStats::new();
    let mut buf = vec![0u8; 64];
    while pacer.seq < 10 {
        if let PaceAction::Send { seq } = pacer.next_action(false) {
            encode_message(&mut buf, 1_000, seq, 24_003);
            stats.record(&buf, 5_000);
            pacer.sent();
        }
    }
    assert_eq!(stats.messages_received, 10);
    assert_eq!(stats.messages_lost, 0);
    assert_eq!(stats.latency_us.percentile(50), 4);
}

#[test]
fn consumers_that_share_streams_out_find_the_same_losses() {
    let mut a = stats_of(1, &[0, 3, 4]);
    let b = stats_of(2, &[2, 5]);
    let mut together = StreamStats::new();
    for (seq, stream) in [(0, 1), (3, 1), (4, 1), (2, 2), (5, 2)] {
        together.record(&message(0, seq, stream), 5_000);
    }
    a.merge(&b);
    assert_eq!(a.messages_lost, together.messages_lost);
    assert_eq!(a.messages_lost, 6);
    assert_eq!(a.messages_received, together.messages_received);
}

#[test]
fn latencies_of_seconds_keep_their_order() {
    let mut stats = StreamStats::new();
    for k in 1..=200u64 {
        stats.record(&message(0, k - 1, 1), k * 12_345_678_000);
    }
    let h = &stats.latency_us;
    assert!(h.percentile(50) <= h.percentile(95));
    assert!(h.percentile(95) <= h.percentile(99));
    assert!(h.percentile(99) <= h.max());
    let longest = 200 * 12_345_678;
    assert!(h.max() >= longest && (h.max() - longest) * 10_000 <= longest);
    let middle = 100 * 12_345_678;
    assert!(h.percentile(50) >= middle && (h.percentile(50) - middle) * 10_000 <= middle);
}

#[test]
fn received_and_lost_make_up_all_numbers() {
    let mut stats = StreamStats::new();
    for (seq, stream) in [(0, 1), (2, 2), (1, 1), (5, 1), (3, 2), (9, 3), (7, 2)] {
        stats.record(&message(0, seq, stream), 1_000);
    }
    let all: u64 = stats.next_expected_seq.values().sum();
    assert_eq!(all, 6 + 8 + 10);
    assert_eq!(stats.messages_received + stats.messages_lost, all);
}
