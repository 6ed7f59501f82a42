use broker_benchmarker::allocation::{water_fill_rates, Allocation};
use broker_benchmarker::config::{parse_config, Config, RawConfig, RunMode};
use broker_benchmarker::message::HEADER_LEN;
use broker_benchmarker::pacing::RateParams;
use broker_benchmarker::plan::{producer_plan, task_count};
use broker_benchmarker::ratio::Ratio;
use broker_benchmarker::streams::{
    active_streams, assigned_partitions, message_key, stream_name_from_topic, task_partition,
    task_stream_id, topic_name, topic_names, MESSAGE_LIMIT,
};
use broker_benchmarker::target::target_from_bits;

/// A target of whole bits per second.
fn bps(numerator: u128) -> Ratio {
    Ratio { numerator, denominator: 1 }
}

/// A target of whole gigabits per second.
fn gbps(n: u128) -> Ratio {
    bps(n * 1_000_000_000)
}

fn settings(broker: &str, partitions: &str, producer_tasks: &str) -> Config {
    let raw = RawConfig {
        broker_type: Some(broker.to_string()),
        topic_prefix: Some("bench".to_string()),
        partitions: Some(partitions.to_string()),
        producer_tasks: Some(producer_tasks.to_string()),
        ..RawConfig::default()
    };
    parse_config(&raw, Some(1e10f64.to_bits()), 0).unwrap()
}

#[test]
fn small_messages_are_capped_and_the_rest_is_shared() {
    let s = active_streams(&RunMode::Combined, gbps(10), 100);
    for stream in &s[..5] {
        assert_eq!(stream.allocation, Allocation::Capped);
    }
    // 10^10 less 8 * 100 * (24 + 256 + 4096 + 65536 + 524288)
    for stream in &s[5..] {
        assert_eq!(stream.allocation, Allocation::Share { bits: 9_524_640_000, among: 3 });
    }
}

#[test]
fn caps_need_more_than_one_round() {
    // At first each stream gets 1000 bits, and only the first is capped. Then the others get 1496
    // each: not enough for a second stream that needs 1520, more than enough for one of 1200.
    let r = water_fill_rates(&[1, 190, 1000], bps(3000), 1);
    assert_eq!(
        r,
        vec![
            Allocation::Capped,
            Allocation::Share { bits: 2992, among: 2 },
            Allocation::Share { bits: 2992, among: 2 },
        ]
    );
    let r = water_fill_rates(&[1, 150, 1000], bps(3000), 1);
    assert_eq!(
        r,
        vec![
            Allocation::Capped,
            Allocation::Capped,
            Allocation::Share { bits: 1792, among: 1 },
        ]
    );
}

#[test]
fn a_stream_that_fits_the_cap_exactly_is_not_capped() {
    assert_eq!(water_fill_rates(&[100], bps(800), 1), vec![Allocation::Share { bits: 800, among: 1 }]);
    assert_eq!(water_fill_rates(&[100], bps(801), 1), vec![Allocation::Capped]);
}

#[test]
fn all_streams_can_be_capped() {
    assert_eq!(water_fill_rates(&[1, 2], bps(1000), 1), vec![Allocation::Capped, Allocation::Capped]);
    assert_eq!(water_fill_rates(&[], bps(1000), 1), vec![]);
}

#[test]
fn no_bandwidth_is_shared_evenly() {
    let s = active_streams(&RunMode::Combined, bps(0), 100);
    for stream in &s {
        assert_eq!(stream.allocation, Allocation::Share { bits: 0, among: 8 });
        assert_eq!(stream.fraction(bps(0), 100), Ratio { numerator: 0, denominator: 1 });
    }
}

#[test]
fn fractions_and_rates() {
    let s = active_streams(&RunMode::Combined, gbps(10), 100);
    assert_eq!(
        s[0].fraction(gbps(10), 100),
        Ratio { numerator: 19_200, denominator: 10_000_000_000 }
    );
    assert_eq!(
        s[7].fraction(gbps(10), 100),
        Ratio { numerator: 9_524_640_000, denominator: 30_000_000_000 }
    );
    assert_eq!(s[0].msgs_per_sec(gbps(10), 100, 16), Ratio { numerator: 100, denominator: 16 });
    assert_eq!(
        s[7].msgs_per_sec(gbps(10), 100, 2),
        Ratio { numerator: 9_524_640_000, denominator: 8 * 83_886_080 * 3 * 2 }
    );
}

#[test]
fn the_sizes_and_labels_of_all_modes() {
    let all: Vec<(u64, &str)> = vec![
        (24, "24b"),
        (256, "256b"),
        (4_096, "4kb"),
        (65_536, "64kb"),
        (524_288, "512kb"),
        (4_194_304, "4mb"),
        (16_777_216, "16mb"),
        (83_886_080, "80mb"),
    ];
    let s = active_streams(&RunMode::Combined, gbps(1), 100);
    let found: Vec<(u64, &str)> = s.iter().map(|a| (a.bytes, a.label)).collect();
    assert_eq!(found, all);
    let singles = [
        RunMode::Only24b,
        RunMode::Only256b,
        RunMode::Only4kb,
        RunMode::Only64kb,
        RunMode::Only512kb,
        RunMode::Only4mb,
        RunMode::Only16mb,
        RunMode::Only80mb,
    ];
    for (mode, expected) in singles.iter().zip(all) {
        let s = active_streams(mode, gbps(1), 100);
        assert_eq!(s.len(), 1);
        assert_eq!((s[0].bytes, s[0].label), expected);
        assert!(s[0].bytes >= HEADER_LEN as u64);
        assert!(s[0].bytes < MESSAGE_LIMIT as u64);
    }
}

#[test]
fn topics_and_stream_names() {
    let s = active_streams(&RunMode::Combined, gbps(1), 100);
    let topics = topic_names("bench", &s);
    assert_eq!(topics.len(), 8);
    assert_eq!(topics[0], "bench_24b_0");
    assert_eq!(topics[7], "bench_80mb_0");
    for i in 0..8 {
        for j in 0..i {
            assert_ne!(topics[i], topics[j]);
        }
    }
    assert_ne!(topic_name("b", "4kb", 11), topic_name("b", "4kb", 1));
    assert_eq!(stream_name_from_topic("my.bench-run_24b_0"), "my_bench_run_24b_0");
    assert_eq!(stream_name_from_topic("my_bench"), "my_bench");
}

#[test]
fn ids_keys_and_partitions_of_tasks() {
    assert_eq!(task_stream_id(65_536, 3), 65_536_003);
    assert_eq!(message_key(65_536_003, 3), "65536003-3");
    assert_eq!(task_partition(7, 3), 1);
    // The ids of the two smallest sizes meet at this distance.
    assert_eq!(task_stream_id(24, 232_000), task_stream_id(256, 0));
}

#[test]
fn partitions_are_dealt_out_in_turn() {
    assert_eq!(assigned_partitions(10, 4, 0), vec![0, 4, 8]);
    assert_eq!(assigned_partitions(10, 4, 1), vec![1, 5, 9]);
    assert_eq!(assigned_partitions(10, 4, 3), vec![3, 7]);
    assert_eq!(assigned_partitions(2, 4, 3), Vec::<i32>::new());
    let mut seen: Vec<i32> = (0..3).flat_map(|t| assigned_partitions(7, 3, t)).collect();
    seen.sort();
    assert_eq!(seen, vec![0, 1, 2, 3, 4, 5, 6]);
}

#[test]
fn a_plan_for_kafka() {
    let c = settings("kafka", "3", "4");
    let streams = active_streams(&RunMode::Combined, c.target, c.max_msg_rate);
    let plan = producer_plan(&c, &streams).unwrap();
    assert_eq!(plan.len(), 8);
    assert_eq!(task_count(&c), 4);
    let first = &plan[0];
    assert_eq!(first.topic, "bench_24b_0");
    // 25 messages per second and task
    assert_eq!(first.rate, RateParams { interval_ms: 40, batch_size: 1 });
    assert_eq!(first.max_in_flight, 4);
    assert_eq!(first.tasks.len(), 4);
    for (t, task) in first.tasks.iter().enumerate() {
        assert_eq!(task.task, t);
        assert_eq!(task.stream_id, 24_000 + t as u64);
        assert_eq!(task.partition, (t % 3) as i32);
        assert_eq!(task.key, format!("{}-{}", 24_000 + t, t));
    }
    let mut ids: Vec<u64> =
        plan.iter().flat_map(|p| p.tasks.iter().map(|t| t.stream_id)).collect();
    ids.sort();
    ids.dedup();
    assert_eq!(ids.len(), 32);
}

#[test]
fn a_plan_for_nats_has_one_task_per_stream() {
    let c = settings("nats", "3", "4");
    let streams = active_streams(&RunMode::Only4kb, c.target, c.max_msg_rate);
    let plan = producer_plan(&c, &streams).unwrap();
    assert_eq!(plan.len(), 1);
    assert_eq!(plan[0].tasks.len(), 1);
    assert_eq!(plan[0].tasks[0].stream_id, 4_096);
    assert_eq!(plan[0].rate, RateParams { interval_ms: 10, batch_size: 1 });
    assert_eq!(plan[0].max_in_flight, 10);
}

#[test]
fn a_plan_for_grpc_has_one_task_per_partition() {
    let c = settings("grpc", "5", "4");
    let streams = active_streams(&RunMode::Only256b, c.target, c.max_msg_rate);
    let plan = producer_plan(&c, &streams).unwrap();
    let ids: Vec<u64> = plan[0].tasks.iter().map(|t| t.stream_id).collect();
    assert_eq!(ids, vec![256_000, 256_001, 256_002, 256_003, 256_004]);
    assert_eq!(plan[0].rate, RateParams { interval_ms: 50, batch_size: 1 });
}

#[test]
fn a_single_kafka_task_goes_by_its_size() {
    for broker in ["kafka", "redpanda"] {
        let c = settings(broker, "3", "1");
        let streams = active_streams(&RunMode::Only64kb, c.target, c.max_msg_rate);
        let plan = producer_plan(&c, &streams).unwrap();
        assert_eq!(plan[0].tasks.len(), 1);
        assert_eq!(plan[0].tasks[0].stream_id, 65_536);
        assert_eq!(plan[0].tasks[0].key, "65536-0");
    }
    // A server knows its streams by their partitions, even where there is one only.
    let c = settings("grpc", "1", "1");
    let streams = active_streams(&RunMode::Only64kb, c.target, c.max_msg_rate);
    assert_eq!(producer_plan(&c, &streams).unwrap()[0].tasks[0].stream_id, 65_536_000);
}

#[test]
fn no_stream_exceeds_the_message_rate() {
    for (cap, interval_ms, batch_size) in
        [(700, 2, 1), (1001, 2, 2), (300, 4, 1), (100, 10, 1), (1000, 1, 1), (2500, 2, 3)]
    {
        let mut c = settings("nats", "1", "1");
        c.max_msg_rate = cap;
        let streams = active_streams(&RunMode::Only24b, c.target, cap);
        let plan = producer_plan(&c, &streams).unwrap();
        assert_eq!(plan[0].rate, RateParams { interval_ms, batch_size });
        // Over ten seconds, with the first batch at once.
        let sent = batch_size * (10_000 / interval_ms + 1);
        assert!(sent <= 10 * cap + batch_size);
    }
}

#[test]
fn tasks_stay_within_the_message_rate_together() {
    for tasks in [1u64, 3, 7, 16, 64] {
        let mut c = settings("kafka", "4", &tasks.to_string());
        c.max_msg_rate = 700;
        let streams = active_streams(&RunMode::Combined, c.target, 700);
        for p in producer_plan(&c, &streams).unwrap() {
            assert!(tasks * 1000 * p.rate.batch_size <= 700 * p.rate.interval_ms);
        }
    }
}

#[test]
fn no_plan_where_ids_do_not_fit() {
    let c = settings("kafka", "1", "18446744073709551615");
    let streams = active_streams(&RunMode::Only24b, c.target, c.max_msg_rate);
    assert!(producer_plan(&c, &streams).is_none());
}

/// The interval of the one stream of 24-byte messages, with one task.
fn wait_ms(bps: f64) -> u64 {
    let mut c = settings("nats", "1", "1");
    c.target = target_from_bits(bps.to_bits());
    let streams = active_streams(&RunMode::Only24b, c.target, c.max_msg_rate);
    producer_plan(&c, &streams).unwrap()[0].rate.interval_ms
}

#[test]
fn small_targets_wait_long() {
    // A message of 24 bytes has 192 bits.
    assert_eq!(wait_ms(192.0), 1_000);
    assert_eq!(wait_ms(1.5), 128_000);
    assert_eq!(wait_ms(1.0), 192_000);
    assert_eq!(wait_ms(0.5), 384_000);
    assert_eq!(wait_ms(0.25), 768_000);
    assert_eq!(wait_ms(2f64.powi(-20)), 192_000 << 20);
    assert_eq!(wait_ms(1e-30), u64::MAX);
    assert_eq!(wait_ms(5e-324), u64::MAX);
    assert_eq!(wait_ms(0.0), 1_000);
    assert_eq!(wait_ms(f64::INFINITY), 10);
}

#[test]
fn small_targets_are_shared_out_like_large_ones() {
    // 1500 bits per second, in units of half a bit.
    let half = Ratio { numerator: 3_000, denominator: 2 };
    assert_eq!(
        water_fill_rates(&[1, 95, 1000], half, 1),
        vec![
            Allocation::Capped,
            Allocation::Share { bits: 2_984, among: 2 },
            Allocation::Share { bits: 2_984, among: 2 },
        ]
    );
}
