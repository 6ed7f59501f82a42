use broker_benchmarker::config::RunMode;
use broker_benchmarker::csv::{write_consumer_csv_row, write_csv_header, write_producer_csv_row};
use broker_benchmarker::message::{decode_header, encode_message};
use broker_benchmarker::pacing::compute_rate_params;
use broker_benchmarker::ratio::Ratio;
use broker_benchmarker::stats::StreamStats;
use broker_benchmarker::streams::{active_streams, topic_name};
use broker_benchmarker::summary::StreamSummary;

fn as_f64(r: Ratio) -> f64 {
    r.numerator as f64 / r.denominator as f64
}

#[test]
fn test_encode_decode_roundtrip() {
    let mut buf = vec![0u8; 1024];
    encode_message(&mut buf, 123_456_789_000, 42, 99);
    let (ts, seq, sid) = decode_header(&buf).unwrap();
    assert_eq!(ts, 123_456_789_000);
    assert_eq!(seq, 42);
    assert_eq!(sid, 99);
}

#[test]
fn test_decode_short_buffer_returns_none() {
    let buf = vec![0u8; 10];
    assert!(decode_header(&buf).is_none());
}

#[test]
fn test_rate_params_low_rate() {
    let p = compute_rate_params(Ratio { numerator: 10, denominator: 1 });
    assert_eq!(p.batch_size, 1);
    assert!(p.interval_ms > 0);
}

#[test]
fn test_rate_params_high_rate() {
    // 1.25M msg/s should produce batch_size > 1
    let p = compute_rate_params(Ratio { numerator: 1_250_000, denominator: 1 });
    assert!(p.batch_size >= 1000);
    assert!(p.interval_ms >= 1);
}

#[test]
fn test_active_streams_combined() {
    // Combined mode should return all 8 message sizes
    let target = Ratio { numerator: 10 * 1_000_000_000, denominator: 1 };
    let s = active_streams(&RunMode::Combined, target, 100);
    assert_eq!(s.len(), 8);
    // Fractions must sum to 1.0
    let fractions: Vec<f64> = s.iter().map(|a| as_f64(a.fraction(target, 100))).collect();
    let total: f64 = fractions.iter().sum();
    assert!((total - 1.0).abs() < 1e-6);
    // All fractions must be positive
    for frac in &fractions {
        assert!(*frac > 0.0);
    }
}

#[test]
fn test_active_streams_single() {
    // Single-size mode returns exactly one stream
    let target = Ratio { numerator: 10 * 1_000_000_000, denominator: 1 };
    let s = active_streams(&RunMode::Only64kb, target, 100);
    assert_eq!(s.len(), 1);
    assert_eq!(s[0].bytes, 65_536);
    // Fraction must be positive and <= 1.0
    let fraction = as_f64(s[0].fraction(target, 100));
    assert!(fraction > 0.0);
    assert!(fraction <= 1.0 + 1e-9);
}

#[test]
fn test_topic_name() {
    assert_eq!(topic_name("bench", "1kb", 0), "bench_1kb_0");
}

#[test]
fn test_stream_stats_loss_detection() {
    let mut stats = StreamStats::new();
    let mut buf = vec![0u8; 1024];

    // Send seq 0, 1, skip 2, send 3: one is lost
    for seq in [0u64, 1, 3] {
        encode_message(&mut buf, 1_000_000, seq, 7);
        stats.record(&buf, 1_001_000);
    }
    assert_eq!(stats.messages_received, 3);
    assert_eq!(stats.messages_lost, 1);
}

#[test]
fn test_achieved_gbps() {
    let mut stats = StreamStats::new();
    stats.total_bytes_received = 1_000_000_000; // 1 GB
    let gbps = as_f64(stats.achieved_gbps(1));
    assert!((gbps - 8.0).abs() < 0.001); // 8 Gbps
}

#[test]
fn test_csv_row_formatting() {
    let mut buf = String::new();
    write_csv_header(&mut buf);
    write_producer_csv_row(&mut buf, "nats", "1kb", "1.000", 1024, 120, 1000);
    let summary = StreamSummary {
        size_bytes: 1024,
        size_label: "1kb",
        messages_received: 950,
        messages_lost: 50,
        total_bytes_received: 950 * 1024,
        p50_us: 1_200,
        p95_us: 5_000,
        p99_us: 9_000,
        max_us: 15_000,
    };
    write_consumer_csv_row(&mut buf, "nats", "1kb", "1.000", 120, &summary, "0.500000");
    assert!(!buf.is_empty());
    let lines: Vec<&str> = buf.lines().collect();
    assert_eq!(
        lines,
        vec![
            "role,broker_type,run_mode,gbps_target,message_size_bytes,run_duration_secs,messages_sent,messages_received,messages_lost,achieved_throughput_gbps,latency_p50_ms,latency_p95_ms,latency_p99_ms,latency_max_ms",
            "producer,nats,1kb,1.000,1024,120,1000,,,,,,,",
            "consumer,nats,1kb,1.000,1024,120,,950,50,0.500000,1.200,5.000,9.000,15.000",
        ]
    );
}
