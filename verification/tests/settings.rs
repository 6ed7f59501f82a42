use broker_benchmarker::config::{
    broker_type_str, env_var, gbps_target_text, parse_broker_type, parse_config,
    parse_payload_type, parse_role, parse_run_mode, role_str, run_mode_str, select_runner,
    BrokerType, Config, ConfigError, PayloadType, RawConfig, Role, RunMode, Runner,
};
use broker_benchmarker::ratio::Ratio;
use broker_benchmarker::target::{target_from_bits, MAX_TARGET};
use broker_benchmarker::text::{number_text, parse_number, same_text};

fn text(s: &str) -> Option<String> {
    Some(s.to_string())
}

fn failure(raw: &RawConfig) -> ConfigError {
    parse_config(raw, Some(1.0f64.to_bits()), 0).unwrap_err()
}

const MODES: [RunMode; 9] = [
    RunMode::Combined,
    RunMode::Only24b,
    RunMode::Only256b,
    RunMode::Only4kb,
    RunMode::Only64kb,
    RunMode::Only512kb,
    RunMode::Only4mb,
    RunMode::Only16mb,
    RunMode::Only80mb,
];

#[test]
fn defaults_apply_where_nothing_is_set() {
    let c: Config =
        parse_config(&RawConfig::default(), Some(1e9f64.to_bits()), 1_776_211_761).unwrap();
    assert_eq!(c.role, Role::Consumer);
    assert_eq!(c.broker_type, BrokerType::Nats);
    assert_eq!(c.broker_endpoint, "localhost:4222");
    assert_eq!(c.gbps_target, "1.0");
    assert_eq!(c.target.numerator, 1_000_000_000 * c.target.denominator);
    assert_eq!(c.run_mode, RunMode::Combined);
    assert_eq!(c.topic_prefix, "benchmark");
    assert_eq!(c.run_duration_secs, 120);
    assert_eq!(c.producer_start_delay_secs, 10);
    assert_eq!(c.run_id, "1776211761");
    assert_eq!(c.output_dir, ".");
    assert_eq!(c.num_partitions, 16);
    assert_eq!(c.num_producer_tasks, 16);
    assert_eq!(c.num_consumer_tasks, 16);
    assert_eq!(c.report_interval_secs, 5);
    assert_eq!(c.payload_type, PayloadType::Float32);
    assert_eq!(c.max_msg_rate, 100);
}

#[test]
fn settings_override_defaults() {
    let raw = RawConfig {
        role: text("PRODUCER"),
        broker_type: text("RedPanda"),
        broker_endpoint: text("redpanda:29092"),
        gbps_target: text("10"),
        run_mode: text("64KB"),
        topic_prefix: text("bench"),
        run_duration_secs: text("60"),
        producer_start_delay_secs: text("+5"),
        run_id: text("run-7"),
        output_dir: text("results"),
        partitions: text("8"),
        producer_tasks: text("4"),
        consumer_tasks: text("2"),
        report_interval_secs: text("0"),
        payload_type: text("Random"),
        max_msg_rate: text("250"),
    };
    let c = parse_config(&raw, Some(1e10f64.to_bits()), 1).unwrap();
    assert_eq!(c.role, Role::Producer);
    assert_eq!(c.broker_type, BrokerType::Redpanda);
    assert_eq!(c.broker_endpoint, "redpanda:29092");
    assert_eq!(c.gbps_target, "10");
    assert_eq!(c.target.numerator, 10_000_000_000 * c.target.denominator);
    assert_eq!(c.run_mode, RunMode::Only64kb);
    assert_eq!(c.topic_prefix, "bench");
    assert_eq!(c.run_duration_secs, 60);
    assert_eq!(c.producer_start_delay_secs, 5);
    assert_eq!(c.run_id, "run-7");
    assert_eq!(c.output_dir, "results");
    assert_eq!(c.num_partitions, 8);
    assert_eq!(c.num_producer_tasks, 4);
    assert_eq!(c.num_consumer_tasks, 2);
    assert_eq!(c.report_interval_secs, 0);
    assert_eq!(c.payload_type, PayloadType::RandomBytes);
    assert_eq!(c.max_msg_rate, 250);
}

#[test]
fn task_counts_follow_the_partitions() {
    let raw = RawConfig { partitions: text("5"), ..RawConfig::default() };
    let c = parse_config(&raw, Some(1.0f64.to_bits()), 0).unwrap();
    assert_eq!((c.num_partitions, c.num_producer_tasks, c.num_consumer_tasks), (5, 5, 5));
}

#[test]
fn counts_are_raised_to_one() {
    let raw = RawConfig {
        partitions: text("0"),
        producer_tasks: text("0"),
        consumer_tasks: text("0"),
        max_msg_rate: text("0"),
        ..RawConfig::default()
    };
    let c = parse_config(&raw, Some(1.0f64.to_bits()), 0).unwrap();
    assert_eq!((c.num_partitions, c.num_producer_tasks, c.num_consumer_tasks), (1, 1, 1));
    assert_eq!(c.max_msg_rate, 1);
}

#[test]
fn each_broker_has_its_endpoint() {
    for (name, endpoint) in [
        ("redpanda", "localhost:9092"),
        ("kafka", "localhost:9092"),
        ("nats", "localhost:4222"),
        ("grpc", "0.0.0.0:50051"),
    ] {
        let raw = RawConfig { broker_type: text(name), ..RawConfig::default() };
        assert_eq!(parse_config(&raw, Some(1.0f64.to_bits()), 0).unwrap().broker_endpoint, endpoint);
    }
}

#[test]
fn settings_without_a_number_are_refused() {
    let d = RawConfig::default();
    assert_eq!(parse_config(&d, None, 0).unwrap_err(), ConfigError::GbpsTarget);
    let raw = RawConfig { run_duration_secs: text("1m"), ..d.clone() };
    assert_eq!(failure(&raw), ConfigError::RunDuration);
    let raw = RawConfig { producer_start_delay_secs: text("-1"), ..d.clone() };
    assert_eq!(failure(&raw), ConfigError::ProducerStartDelay);
    let raw = RawConfig { partitions: text(""), ..d.clone() };
    assert_eq!(failure(&raw), ConfigError::Partitions);
    let raw = RawConfig { producer_tasks: text("+"), ..d.clone() };
    assert_eq!(failure(&raw), ConfigError::ProducerTasks);
    let raw = RawConfig { consumer_tasks: text(" 4"), ..d.clone() };
    assert_eq!(failure(&raw), ConfigError::ConsumerTasks);
    let raw = RawConfig { report_interval_secs: text("5.0"), ..d.clone() };
    assert_eq!(failure(&raw), ConfigError::ReportInterval);
    let raw = RawConfig { max_msg_rate: text("18446744073709551616"), ..d.clone() };
    assert_eq!(failure(&raw), ConfigError::MaxMsgRate);
}

#[test]
fn the_first_failure_is_reported() {
    let raw = RawConfig {
        run_duration_secs: text("x"),
        max_msg_rate: text("x"),
        ..RawConfig::default()
    };
    assert_eq!(failure(&raw), ConfigError::RunDuration);
    assert_eq!(parse_config(&raw, None, 0).unwrap_err(), ConfigError::GbpsTarget);
}

#[test]
fn failures_have_messages() {
    for (e, message) in [
        (ConfigError::GbpsTarget, "GBPS_TARGET must be a float"),
        (ConfigError::RunDuration, "RUN_DURATION_SECS must be u64"),
        (ConfigError::ProducerStartDelay, "PRODUCER_START_DELAY_SECS must be u64"),
        (ConfigError::Partitions, "PARTITIONS must be a positive integer"),
        (ConfigError::ProducerTasks, "PRODUCER_TASKS must be a positive integer"),
        (ConfigError::ConsumerTasks, "CONSUMER_TASKS must be a positive integer"),
        (ConfigError::ReportInterval, "REPORT_INTERVAL_SECS must be u64"),
        (ConfigError::MaxMsgRate, "MAX_MSG_RATE must be a positive integer"),
    ] {
        assert_eq!(e.message(), message);
    }
}

#[test]
fn names_read_back_in_any_case() {
    for m in MODES {
        assert_eq!(parse_run_mode(run_mode_str(&m)), m);
        assert_eq!(parse_run_mode(&run_mode_str(&m).to_uppercase()), m);
    }
    for b in [BrokerType::Redpanda, BrokerType::Kafka, BrokerType::Nats, BrokerType::Grpc] {
        assert_eq!(parse_broker_type(broker_type_str(&b)), b);
        assert_eq!(parse_broker_type(&broker_type_str(&b).to_uppercase()), b);
    }
    for r in [Role::Producer, Role::Consumer] {
        assert_eq!(parse_role(&role_str(&r).to_uppercase()), r);
    }
    assert_eq!(parse_payload_type("RANDOM_BYTES"), PayloadType::RandomBytes);
    assert_eq!(parse_payload_type("random"), PayloadType::RandomBytes);
}

#[test]
fn unknown_names_fall_back() {
    assert_eq!(parse_role("both"), Role::Consumer);
    assert_eq!(parse_broker_type("rabbit"), BrokerType::Nats);
    assert_eq!(parse_run_mode("1kb"), RunMode::Combined);
    assert_eq!(parse_payload_type(""), PayloadType::Float32);
}

#[test]
fn lower_case_goes_beyond_ascii() {
    // The Kelvin sign is a letter whose lower case is an ordinary k.
    assert_eq!(parse_broker_type("\u{212A}afka"), BrokerType::Kafka);
}

#[test]
fn runners_by_role_and_broker() {
    let p = Role::Producer;
    let c = Role::Consumer;
    assert_eq!(select_runner(&p, &BrokerType::Nats), Runner::NatsProducer);
    assert_eq!(select_runner(&c, &BrokerType::Nats), Runner::NatsConsumer);
    assert_eq!(select_runner(&p, &BrokerType::Redpanda), Runner::RedpandaProducer);
    assert_eq!(select_runner(&c, &BrokerType::Redpanda), Runner::RedpandaConsumer);
    assert_eq!(select_runner(&p, &BrokerType::Kafka), Runner::RedpandaProducer);
    assert_eq!(select_runner(&c, &BrokerType::Kafka), Runner::RedpandaConsumer);
    assert_eq!(select_runner(&p, &BrokerType::Grpc), Runner::GrpcProducer);
    assert_eq!(select_runner(&c, &BrokerType::Grpc), Runner::GrpcConsumer);
}

#[test]
fn texts_of_settings() {
    assert_eq!(env_var(&None, "d"), "d");
    assert_eq!(env_var(&text(""), "d"), "");
    assert_eq!(gbps_target_text(&RawConfig::default()), "1.0");
    let raw = RawConfig { gbps_target: text("0.01"), ..RawConfig::default() };
    assert_eq!(gbps_target_text(&raw), "0.01");
}

#[test]
fn decimal_notation_reads_back() {
    for n in [0, 7, 10, 99, 100, 65_536, u64::MAX] {
        assert_eq!(number_text(n), n.to_string());
        assert_eq!(parse_number(&number_text(n), u64::MAX), Some(n));
    }
    assert_eq!(parse_number("256", 255), None);
    assert_eq!(parse_number("255", 255), Some(255));
    assert_eq!(parse_number("007", 10), Some(7));
    assert_eq!(parse_number("++1", 10), None);
    assert!(same_text("a", "a"));
    assert!(!same_text("a", "ab"));
}

fn target(bps: f64) -> Ratio {
    target_from_bits(bps.to_bits())
}

#[test]
fn targets_are_kept_exactly() {
    assert_eq!(target(0.0), Ratio { numerator: 0, denominator: 1 });
    assert_eq!(target(-0.0), Ratio { numerator: 0, denominator: 1 });
    assert_eq!(target(-3.5), Ratio { numerator: 0, denominator: 1 });
    assert_eq!(target(f64::NEG_INFINITY), Ratio { numerator: 0, denominator: 1 });
    for bps in [1e9, 1e10, 1.5, 0.3, 0.001, 123_456.789, 1e-20] {
        let t = target(bps);
        assert_eq!(t.numerator as f64 / t.denominator as f64, bps);
    }
    assert_eq!(target(2f64.powi(60)), Ratio { numerator: 1 << 60, denominator: 1 });
    assert_eq!(target(2f64.powi(120)), Ratio { numerator: MAX_TARGET, denominator: 1 });
}

#[test]
fn targets_beyond_all_bounds() {
    let most = Ratio { numerator: MAX_TARGET, denominator: 1 };
    assert_eq!(target(2f64.powi(121)), most);
    assert_eq!(target(f64::MAX), most);
    assert_eq!(target(f64::INFINITY), most);
    assert_eq!(target(f64::NAN), most);
    let least = Ratio { numerator: 1, denominator: 1 << 127 };
    assert_eq!(target(f64::MIN_POSITIVE), least);
    assert_eq!(target(5e-324), least);
}
