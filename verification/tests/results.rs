use broker_benchmarker::config::{parse_config, Config, RawConfig};
use broker_benchmarker::csv::{consumer_csv, csv_path, millis, producer_csv};
use broker_benchmarker::message::encode_message;
use broker_benchmarker::report::{
    benchmark_report, report_path, report_row, target_percent, Hardware,
    ReportRow, RowTexts,
};
use broker_benchmarker::stats::StreamStats;
use broker_benchmarker::streams::{active_streams, topic_name};
use broker_benchmarker::summary::{
    consumer_summaries, sent_per_stream, summarize, SentCount, StreamSummary,
};
use broker_benchmarker::table::StatsTable;

fn settings(broker: &str, mode: &str, role: &str) -> Config {
    let raw = RawConfig {
        role: Some(role.to_string()),
        broker_type: Some(broker.to_string()),
        broker_endpoint: Some("redpanda:29092".to_string()),
        run_mode: Some(mode.to_string()),
        topic_prefix: Some("bench".to_string()),
        run_duration_secs: Some("60".to_string()),
        run_id: Some("1776211761".to_string()),
        output_dir: Some("results".to_string()),
        ..RawConfig::default()
    };
    parse_config(&raw, Some(1e10f64.to_bits()), 0).unwrap()
}

/// Statistics of a number of messages of 64 bytes, with latencies of 1, 2, 3 ... microseconds.
fn stats_of(count: u64) -> StreamStats {
    let mut stats = StreamStats::new();
    let mut buf = vec![0u8; 64];
    for seq in 0..count {
        encode_message(&mut buf, 0, seq, 1);
        stats.record(&buf, (seq + 1) * 1000);
    }
    stats
}

fn sent(size_bytes: u64, size_label: &'static str, sent: u64) -> SentCount {
    SentCount { size_bytes, size_label, sent }
}

/// A line of the report on messages of one size, all of which arrived.
fn row(
    label: &'static str,
    size: u64,
    messages: u64,
    efficiency: u64,
    achieved: &str,
    latencies: [&str; 4],
) -> ReportRow {
    let summary = StreamSummary {
        size_bytes: size,
        size_label: label,
        messages_received: messages,
        messages_lost: 0,
        total_bytes_received: size * messages,
        p50_us: 0,
        p95_us: 0,
        p99_us: 0,
        max_us: 0,
    };
    let texts = RowTexts {
        target_gbps: "2.50".to_string(),
        achieved_gbps: achieved.to_string(),
        p50_ms: latencies[0].to_string(),
        p95_ms: latencies[1].to_string(),
        p99_ms: latencies[2].to_string(),
        max_ms: latencies[3].to_string(),
    };
    report_row(&summary, efficiency, texts)
}

#[test]
fn microseconds_in_milliseconds() {
    assert_eq!(millis(0), "0.000");
    assert_eq!(millis(7), "0.007");
    assert_eq!(millis(1_234_567), "1234.567");
    assert_eq!(millis(60_050), "60.050");
    for us in [1, 999, 1_000, 20_001, 10_215_904] {
        assert_eq!(millis(us), format!("{:.3}", us as f64 / 1000.0));
    }
}

#[test]
fn figures_of_a_stream() {
    let c = settings("nats", "4kb", "consumer");
    let streams = active_streams(&c.run_mode, c.target, 100);
    let s = summarize(&streams[0], &stats_of(100));
    assert_eq!((s.size_bytes, s.size_label), (4_096, "4kb"));
    assert_eq!((s.messages_received, s.messages_lost), (100, 0));
    assert_eq!(s.total_bytes_received, 6_400);
    assert_eq!((s.p50_us, s.p95_us, s.p99_us, s.max_us), (50, 95, 99, 100));
}

#[test]
fn figures_of_a_run_are_added_up_over_partitions() {
    let c = settings("kafka", "combined", "consumer");
    let streams = active_streams(&c.run_mode, c.target, c.max_msg_rate);
    let mut table = StatsTable::new();
    table.insert(topic_name("bench", "24b", 0), stats_of(10));
    table.insert(topic_name("bench", "24b", 15), stats_of(5));
    table.insert(topic_name("bench", "24b", 16), stats_of(5));
    let rows = consumer_summaries(&c, &table, &streams).unwrap();
    assert_eq!(rows.len(), 8);
    assert_eq!(rows[0].messages_received, 15);
    assert_eq!(rows[0].max_us, 10);
    assert_eq!(rows[7].messages_received, 0);
    // With NATS there is one topic only.
    let nats = settings("nats", "combined", "consumer");
    let rows = consumer_summaries(&nats, &table, &streams).unwrap();
    assert_eq!(rows[0].messages_received, 10);
    let mut full = StreamStats::new();
    full.total_bytes_received = u64::MAX;
    table.insert(topic_name("bench", "24b", 1), full);
    assert!(consumer_summaries(&c, &table, &streams).is_none());
}

#[test]
fn counts_of_the_tasks_of_a_stream_add_up() {
    let c = settings("kafka", "combined", "producer");
    let streams = active_streams(&c.run_mode, c.target, c.max_msg_rate);
    let counts = vec![sent(24, "24b", 5), sent(256, "256b", 1), sent(24, "24b", 7)];
    let rows = sent_per_stream(&counts, &streams).unwrap();
    let found: Vec<u64> = rows.iter().map(|r| r.sent).collect();
    assert_eq!(found, vec![12, 1, 0, 0, 0, 0, 0, 0]);
    assert_eq!((rows[1].size_bytes, rows[1].size_label), (256, "256b"));
    let turned = vec![sent(24, "24b", 7), sent(24, "24b", 5), sent(256, "256b", 1)];
    let again: Vec<u64> =
        sent_per_stream(&turned, &streams).unwrap().iter().map(|r| r.sent).collect();
    assert_eq!(again, found);
    let many = vec![sent(24, "24b", u64::MAX), sent(24, "24b", 1)];
    assert!(sent_per_stream(&many, &streams).is_none());
}

#[test]
fn the_result_file_of_a_producer() {
    let c = settings("redpanda", "combined", "producer");
    let rows = vec![sent(24, "24b", 6000), sent(256, "256b", 17)];
    let file = producer_csv(&c, "10.000", &rows);
    let lines: Vec<&str> = file.lines().collect();
    assert_eq!(lines.len(), 3);
    assert_eq!(lines[1], "producer,redpanda,combined,10.000,24,60,6000,,,,,,,");
    assert_eq!(lines[2], "producer,redpanda,combined,10.000,256,60,17,,,,,,,");
    for line in &lines {
        assert_eq!(line.split(',').count(), 14);
    }
    assert!(file.ends_with('\n'));
    assert_eq!(csv_path(&c), "results/producer_redpanda_out_1776211761.csv");
}

#[test]
fn the_result_file_of_a_consumer() {
    let c = settings("redpanda", "64kb", "consumer");
    let summary = StreamSummary {
        size_bytes: 65_536,
        size_label: "64kb",
        messages_received: 4_252,
        messages_lost: 3,
        total_bytes_received: 4_252 * 65_536,
        p50_us: 960_200,
        p95_us: 1_443_800,
        p99_us: 3_340_300,
        max_us: 3_393_807,
    };
    let file = consumer_csv(&c, "10.000", &vec![summary], &vec!["0.037155".to_string()]);
    let lines: Vec<&str> = file.lines().collect();
    assert_eq!(
        lines[1],
        "consumer,redpanda,64kb,10.000,65536,60,,4252,3,0.037155,960.200,1443.800,3340.300,3393.807"
    );
    for line in &lines {
        assert_eq!(line.split(',').count(), 14);
    }
    assert_eq!(csv_path(&c), "results/consumer_redpanda_out_1776211761.csv");
}

#[test]
fn parts_of_the_target() {
    assert_eq!(target_percent(&settings("nats", "combined", "consumer").run_mode), 25);
    assert_eq!(target_percent(&settings("nats", "80mb", "consumer").run_mode), 100);
}

#[test]
fn the_report_of_a_run() {
    let c = settings("redpanda", "combined", "consumer");
    let hw = Hardware {
        os: "linux".to_string(),
        cpu_count: 16,
        total_ram_bytes: 34_000_000_000,
        in_container: true,
    };
    let rows = vec![
        row("24b", 24, 3713, 0, "0.000", ["958.0", "1529.8", "3306.0", "10215.9"]),
        row("256b", 256, 4208, 0, "0.000", ["942.5", "1269.4", "3312.0", "3317.8"]),
        row("4kb", 4_096, 4318, 0, "0.002", ["942.9", "1275.5", "3317.9", "3331.8"]),
        row("64kb", 65_536, 4252, 1, "0.037", ["960.2", "1443.8", "3340.3", "3393.8"]),
        row("512kb", 524_288, 2516, 7, "0.176", ["1000.4", "3027.5", "6527.7", "34990.1"]),
        row("4mb", 4_194_304, 1721, 38, "0.962", ["1406.0", "4689.9", "10274.8", "32743.4"]),
        row("16mb", 16_777_216, 429, 38, "0.960", ["2620.9", "17191.9", "25736.2", "26507.3"]),
        row("80mb", 83_886_080, 104, 46, "1.163", ["7940.9", "34365.4", "47073.3", "50679.8"]),
    ];
    let text = benchmark_report(&c, &hw, "10.0", "3.301", 33, &rows);
    let expected = "# Broker Benchmark Report

## Hardware
| Property | Value |
|---|---|
| OS | linux |
| Logical CPU cores | 16 |
| Total RAM | 31 GB |
| Container | yes (Docker) |

## Test Setup
| Parameter | Value |
|---|---|
| Broker | Redpanda @ redpanda:29092 |
| Run mode | combined |
| GBPS target | 10.0 |
| Duration | 60s |
| Partitions | 16 |
| Producer tasks | 16 |
| Consumer tasks | 16 |
| Payload type | float32 correlated (LZ4-compressible) |
| Max msg rate | 100 msg/s/stream |
| Compression | LZ4 |
| Run ID | 1776211761 |

## Results
| Message Size | Target Gbps | Achieved Gbps | Efficiency | Messages | Lost | p50 ms | p95 ms | p99 ms | max ms |
|---|---|---|---|---|---|---|---|---|---|
| 24b | 2.50 | 0.000 | 0% | 3713 | 0 | 958.0 | 1529.8 | 3306.0 | 10215.9 |
| 256b | 2.50 | 0.000 | 0% | 4208 | 0 | 942.5 | 1269.4 | 3312.0 | 3317.8 |
| 4kb | 2.50 | 0.002 | 0% | 4318 | 0 | 942.9 | 1275.5 | 3317.9 | 3331.8 |
| 64kb | 2.50 | 0.037 | 1% | 4252 | 0 | 960.2 | 1443.8 | 3340.3 | 3393.8 |
| 512kb | 2.50 | 0.176 | 7% | 2516 | 0 | 1000.4 | 3027.5 | 6527.7 | 34990.1 |
| 4mb | 2.50 | 0.962 | 38% | 1721 | 0 | 1406.0 | 4689.9 | 10274.8 | 32743.4 |
| 16mb | 2.50 | 0.960 | 38% | 429 | 0 | 2620.9 | 17191.9 | 25736.2 | 26507.3 |
| 80mb | 2.50 | 1.163 | 46% | 104 | 0 | 7940.9 | 34365.4 | 47073.3 | 50679.8 |

## Summary
| Metric | Value |
|---|---|
| Target Gbps | 10.0 |
| Achieved Gbps | **3.301** |
| Efficiency | **33%** |
| Messages received | 21261 |
| Messages lost | **0** |
";
    assert_eq!(text, expected);
    assert_eq!(report_path(&c), "results/report_1776211761.md");
}

#[test]
fn the_other_words_of_the_report() {
    let mut c = settings("grpc", "4kb", "consumer");
    c.payload_type = broker_benchmarker::config::PayloadType::RandomBytes;
    let hw = Hardware {
        os: "macos".to_string(),
        cpu_count: 8,
        total_ram_bytes: 1_073_741_823,
        in_container: false,
    };
    let text = benchmark_report(&c, &hw, "10.0", "0.000", 0, &vec![]);
    for line in [
        "| Total RAM | 0 GB |",
        "| Container | no |",
        "| Broker | Grpc @ redpanda:29092 |",
        "| Run mode | 4kb |",
        "| Payload type | random bytes (entropy baseline) |",
        "| Efficiency | **0%** |",
    ] {
        assert!(text.lines().any(|l| l == line), "{}", line);
    }
}
