use broker_benchmarker::clock::{now_ns, timestamp, timestamp_from_nanos};
use broker_benchmarker::config::PayloadType;
use broker_benchmarker::message::{decode_header, encode_message, HEADER_LEN};
use broker_benchmarker::pacing::{
    compute_rate_params, max_in_flight, schedule, should_retry_enqueue, PaceAction, Pacer, Progress,
    RateParams, ReportAction, ThroughputMeter,
};
use broker_benchmarker::payload::{
    fill_float32_payload, fill_payload, fill_random_payload, put_payload, sample_count,
    samples_needed,
};
use broker_benchmarker::ratio::Ratio;
use std::time::{Duration, SystemTime};

fn params(numerator: u128, denominator: u128) -> (u64, u64) {
    let p = compute_rate_params(Ratio { numerator, denominator });
    (p.interval_ms, p.batch_size)
}

#[test]
fn intervals_and_batches() {
    assert_eq!(params(10, 1), (100, 1));
    assert_eq!(params(1_250_000, 1), (1, 1250));
    assert_eq!(params(1_000, 1), (1, 1));
    assert_eq!(params(1_001, 1), (1, 2));
    assert_eq!(params(1_500, 1), (1, 2));
    assert_eq!(params(3, 7), (2333, 1));
    assert_eq!(params(5_000, 2), (1, 3));
    assert_eq!(params(0, 1), (1000, 1));
    assert_eq!(
        compute_rate_params(Ratio { numerator: 0, denominator: 9 }),
        RateParams { interval_ms: 1000, batch_size: 1 }
    );
}

#[test]
fn schedules_keep_within_the_cap() {
    let at = |numerator, denominator, tasks, cap| {
        let p = schedule(Ratio { numerator, denominator }, tasks, cap);
        (p.interval_ms, p.batch_size)
    };
    // 1 ms would be 1000 messages per second
    assert_eq!(at(700, 1, 1, 700), (2, 1));
    assert_eq!(at(700, 1, 1, 1000), (1, 1));
    assert_eq!(at(700, 3, 3, 700), (5, 1));
    assert_eq!(at(10, 1, 1, 10), (100, 1));
    assert_eq!(at(0, 1, 5, 1), (5000, 1));
    assert_eq!(at(1, 1, usize::MAX, 1), (u64::MAX, 1));
}

#[test]
fn messages_on_their_way() {
    assert_eq!(max_in_flight(Ratio { numerator: 10, denominator: 1 }), 4);
    assert_eq!(max_in_flight(Ratio { numerator: 41, denominator: 1 }), 5);
    assert_eq!(max_in_flight(Ratio { numerator: 1000, denominator: 1 }), 100);
    assert_eq!(max_in_flight(Ratio { numerator: 1000, denominator: 16 }), 7);
}

#[test]
fn one_batch_follows_each_tick() {
    let mut p = Pacer::new(2);
    assert_eq!(p.next_action(false), PaceAction::WaitTick);
    assert_eq!(p.next_action(false), PaceAction::Send { seq: 0 });
    p.sent();
    assert_eq!(p.next_action(false), PaceAction::Send { seq: 1 });
    p.sent();
    assert_eq!(p.next_action(false), PaceAction::WaitTick);
    assert_eq!(p.next_action(false), PaceAction::Send { seq: 2 });
    assert_eq!(p.seq, 2);
    assert_eq!(p.next_action(true), PaceAction::Stop);
    assert_eq!(p.next_action(true), PaceAction::Stop);
}

#[test]
fn an_abandoned_batch_sends_nothing_more() {
    let mut p = Pacer::new(3);
    p.next_action(false);
    p.sent();
    p.abandon_batch();
    assert_eq!(p.next_action(false), PaceAction::WaitTick);
    assert_eq!(p.next_action(false), PaceAction::Send { seq: 1 });
}

#[test]
fn only_a_full_queue_is_tried_again() {
    assert!(should_retry_enqueue("Message production error: QueueFull (Local: Queue full)"));
    assert!(should_retry_enqueue("QueueFull"));
    assert!(!should_retry_enqueue("Message production error: MessageSizeTooLarge"));
    assert!(!should_retry_enqueue("Queue full"));
    assert!(!should_retry_enqueue(""));
}

#[test]
fn throughput_since_the_last_report() {
    let mut m = ThroughputMeter::new(5).unwrap();
    assert_eq!(
        m.tick(false, 3 * 1_048_576 + 5, 2_000_000_000),
        ReportAction::Print(Progress {
            bytes: 3_145_733,
            mib: 3,
            gbps: Ratio { numerator: 25_165_864, denominator: 2_000_000_000 },
        })
    );
    assert_eq!(
        m.tick(false, 3 * 1_048_576 + 15, 1),
        ReportAction::Print(Progress {
            bytes: 10,
            mib: 0,
            gbps: Ratio { numerator: 80, denominator: 1 },
        })
    );
    assert_eq!(m.tick(false, 3 * 1_048_576 + 20, 0), ReportAction::Skip);
    assert_eq!(m.last_bytes, 3 * 1_048_576 + 20);
    assert_eq!(m.tick(true, 4 * 1_048_576, 5), ReportAction::Stop);
    assert_eq!(m.last_bytes, 3 * 1_048_576 + 20);
}

#[test]
fn an_interval_of_zero_switches_reports_off() {
    assert!(ThroughputMeter::new(0).is_none());
}

#[test]
fn the_header_in_bytes() {
    let mut buf = vec![0xffu8; 26];
    encode_message(&mut buf, 0x0102_0304_0506_0708, 1, 65_536_003);
    assert_eq!(
        buf,
        vec![
            1, 2, 3, 4, 5, 6, 7, 8, 0, 0, 0, 0, 0, 0, 0, 1, 0, 0, 0, 0, 0x03, 0xe8, 0x00, 0x03,
            0xff, 0xff
        ]
    );
}

#[test]
fn short_buffers_are_left_alone() {
    let mut buf = vec![7u8; HEADER_LEN - 1];
    encode_message(&mut buf, 1, 2, 3);
    assert_eq!(buf, vec![7u8; HEADER_LEN - 1]);
    let mut buf = vec![7u8; HEADER_LEN];
    encode_message(&mut buf, 1, 2, 3);
    assert_eq!(decode_header(&buf), Some((1, 2, 3)));
}

#[test]
fn rewriting_a_header_changes_nothing() {
    let data: Vec<u8> = (0u8..40).collect();
    let (ts, seq, id) = decode_header(&data).unwrap();
    let mut copy = data.clone();
    encode_message(&mut copy, ts, seq, id);
    assert_eq!(copy, data);
}

#[test]
fn timestamps() {
    let epoch = SystemTime::UNIX_EPOCH;
    assert_eq!(timestamp(&epoch), Some(0));
    assert_eq!(timestamp(&(epoch + Duration::new(5, 7))), Some(5_000_000_007));
    assert_eq!(timestamp(&(epoch - Duration::from_secs(1))), None);
    assert_eq!(timestamp_from_nanos(u64::MAX as u128), u64::MAX);
    assert_eq!(timestamp_from_nanos(u64::MAX as u128 + 6), 5);
}

#[test]
fn the_clock_runs() {
    let a = now_ns().unwrap();
    let b = now_ns().unwrap();
    assert!(a > 1_600_000_000_000_000_000);
    assert!(b >= a);
}

#[test]
fn samples_fill_the_payload() {
    let mut buf = vec![9u8; HEADER_LEN + 10];
    assert_eq!(sample_count(buf.len()), 2);
    fill_float32_payload(&mut buf, &[1.5f32.to_bits(), (-2.25f32).to_bits()]);
    assert_eq!(buf[..HEADER_LEN], [9u8; HEADER_LEN]);
    assert_eq!(buf[HEADER_LEN..HEADER_LEN + 4], 1.5f32.to_le_bytes());
    assert_eq!(buf[HEADER_LEN + 4..HEADER_LEN + 8], (-2.25f32).to_le_bytes());
    assert_eq!(buf[HEADER_LEN + 8..], [9, 9]);
    assert_eq!(sample_count(10), 0);
    assert_eq!(sample_count(HEADER_LEN), 0);
    let mut short = vec![1u8; 10];
    fill_float32_payload(&mut short, &[]);
    assert_eq!(short, vec![1u8; 10]);
}

#[test]
fn random_bytes_fill_the_payload() {
    let mut buf = vec![0u8; HEADER_LEN + 1024];
    fill_random_payload(&mut buf);
    assert_eq!(buf.len(), HEADER_LEN + 1024);
    assert_eq!(buf[..HEADER_LEN], [0u8; HEADER_LEN]);
    assert!(buf[HEADER_LEN..].iter().any(|b| *b != 0));
    let mut other = vec![0u8; HEADER_LEN + 1024];
    fill_random_payload(&mut other);
    assert_ne!(buf, other);
}

#[test]
fn given_bytes_fill_the_payload() {
    let mut buf = vec![5u8; HEADER_LEN + 3];
    put_payload(&mut buf, &[1, 2, 3]);
    assert_eq!(buf[..HEADER_LEN], [5u8; HEADER_LEN]);
    assert_eq!(buf[HEADER_LEN..], [1, 2, 3]);
}

#[test]
fn payloads_by_type() {
    assert_eq!(samples_needed(PayloadType::Float32, HEADER_LEN + 9), 2);
    assert_eq!(samples_needed(PayloadType::RandomBytes, HEADER_LEN + 9), 0);
    let mut buf = vec![0u8; HEADER_LEN + 8];
    fill_payload(&mut buf, PayloadType::Float32, &[1, 0x0403_0201]);
    assert_eq!(buf[HEADER_LEN..], [1, 0, 0, 0, 1, 2, 3, 4]);
    let mut buf = vec![0u8; HEADER_LEN + 1024];
    fill_payload(&mut buf, PayloadType::RandomBytes, &[]);
    assert_eq!(buf[..HEADER_LEN], [0u8; HEADER_LEN]);
    assert!(buf[HEADER_LEN..].iter().any(|b| *b != 0));
}
