//! The settings of a run, read from the texts of environment variables.
use crate::ratio::Ratio;
use crate::target::{is_target, target_from_bits, target_of};
use crate::text::{
    decimal, law_decimal_reads_back, parse_number, parsed_number, push_decimal, same_text,
};
use vstd::prelude::*;
use vstd::utf8::is_ascii_chars;

verus! {

/// Which end of the benchmark this process is.
#[derive(Debug, Clone, Copy, PartialEq, Eq, Structural)]
pub enum Role {
    Producer,
    Consumer,
}

/// The broker under test.
#[derive(Debug, Clone, Copy, PartialEq, Eq, Structural)]
pub enum BrokerType {
    Redpanda,
    Kafka,
    Nats,
    Grpc,
}

/// Which message sizes take part in a run: all of them, or one.
#[derive(Debug, Clone, Copy, PartialEq, Eq, Structural)]
pub enum RunMode {
    Combined,
    Only24b,
    Only256b,
    Only4kb,
    Only64kb,
    Only512kb,
    Only4mb,
    Only16mb,
    Only80mb,
}

/// What the payload of a message consists of.
#[derive(Debug, Clone, Copy, PartialEq, Eq, Structural)]
pub enum PayloadType {
    /// Correlated 32-bit floating-point samples, which compress well.
    Float32,
    /// Random bytes, which do not compress.
    RandomBytes,
}

/// A text with its letters in lower case: what `str::to_lowercase` returns.
pub uninterp spec fn lowercased(s: Seq<char>) -> Seq<char>;

/// The lower case of an ASCII letter; any other character itself.
pub open spec fn ascii_lower(c: char) -> char {
    if 'A' <= c <= 'Z' {
        (c as int + 32) as char
    } else {
        c
    }
}

/// An ASCII text with its letters in lower case.
pub open spec fn ascii_lowercased(s: Seq<char>) -> Seq<char> {
    s.map_values(|c: char| ascii_lower(c))
}

/// `str::to_lowercase`: a function of the text, by the Unicode tables. In a text of ASCII
/// characters it maps `A` to `Z` to `a` to `z` and keeps the rest.
#[verifier::external_body]
fn to_lowercase(s: &str) -> (r: String)
    ensures
        r@ == lowercased(s@),
        s.is_ascii() ==> r@ == ascii_lowercased(s@),
{
    s.to_lowercase()
}

/// The name of a broker, as it stands in file names and tables.
pub open spec fn broker_name(b: BrokerType) -> Seq<char> {
    match b {
        BrokerType::Redpanda => "redpanda"@,
        BrokerType::Kafka => "kafka"@,
        BrokerType::Nats => "nats"@,
        BrokerType::Grpc => "grpc"@,
    }
}

/// The name of a run mode, as it stands in tables.
pub open spec fn run_mode_name(m: RunMode) -> Seq<char> {
    match m {
        RunMode::Combined => "combined"@,
        RunMode::Only24b => "24b"@,
        RunMode::Only256b => "256b"@,
        RunMode::Only4kb => "4kb"@,
        RunMode::Only64kb => "64kb"@,
        RunMode::Only512kb => "512kb"@,
        RunMode::Only4mb => "4mb"@,
        RunMode::Only16mb => "16mb"@,
        RunMode::Only80mb => "80mb"@,
    }
}

/// The name of a role, as it stands in file names.
pub open spec fn role_name(r: Role) -> Seq<char> {
    match r {
        Role::Producer => "producer"@,
        Role::Consumer => "consumer"@,
    }
}

/// The name of a broker.
pub fn broker_type_str(bt: &BrokerType) -> (s: &'static str)
    ensures
        s@ == broker_name(*bt),
{
    match bt {
        BrokerType::Redpanda => "redpanda",
        BrokerType::Kafka => "kafka",
        BrokerType::Nats => "nats",
        BrokerType::Grpc => "grpc",
    }
}

/// The name of a run mode.
pub fn run_mode_str(rm: &RunMode) -> (s: &'static str)
    ensures
        s@ == run_mode_name(*rm),
{
    match rm {
        RunMode::Combined => "combined",
        RunMode::Only24b => "24b",
        RunMode::Only256b => "256b",
        RunMode::Only4kb => "4kb",
        RunMode::Only64kb => "64kb",
        RunMode::Only512kb => "512kb",
        RunMode::Only4mb => "4mb",
        RunMode::Only16mb => "16mb",
        RunMode::Only80mb => "80mb",
    }
}

/// The name of a role.
pub fn role_str(role: &Role) -> (s: &'static str)
    ensures
        s@ == role_name(*role),
{
    match role {
        Role::Producer => "producer",
        Role::Consumer => "consumer",
    }
}

/// The role that a lower-case text names: the producer by its name, else the consumer.
pub open spec fn role_of(lower: Seq<char>) -> Role {
    if lower == "producer"@ {
        Role::Producer
    } else {
        Role::Consumer
    }
}

/// The broker that a lower-case text names; NATS where it names none.
pub open spec fn broker_of(lower: Seq<char>) -> BrokerType {
    if lower == "redpanda"@ {
        BrokerType::Redpanda
    } else if lower == "kafka"@ {
        BrokerType::Kafka
    } else if lower == "grpc"@ {
        BrokerType::Grpc
    } else {
        BrokerType::Nats
    }
}

/// The run mode that a lower-case text names; all sizes where it names none.
pub open spec fn run_mode_of(lower: Seq<char>) -> RunMode {
    if lower == "24b"@ {
        RunMode::Only24b
    } else if lower == "256b"@ {
        RunMode::Only256b
    } else if lower == "4kb"@ {
        RunMode::Only4kb
    } else if lower == "64kb"@ {
        RunMode::Only64kb
    } else if lower == "512kb"@ {
        RunMode::Only512kb
    } else if lower == "4mb"@ {
        RunMode::Only4mb
    } else if lower == "16mb"@ {
        RunMode::Only16mb
    } else if lower == "80mb"@ {
        RunMode::Only80mb
    } else {
        RunMode::Combined
    }
}

/// The payload type that a lower-case text names; floating-point samples where it names none.
pub open spec fn payload_type_of(lower: Seq<char>) -> PayloadType {
    if lower == "random_bytes"@ || lower == "random"@ {
        PayloadType::RandomBytes
    } else {
        PayloadType::Float32
    }
}

/// The role that a lower-case text names.
pub fn role_from_lower(lower: &str) -> (r: Role)
    ensures
        r == role_of(lower@),
{
    if same_text(lower, "producer") {
        Role::Producer
    } else {
        Role::Consumer
    }
}

/// The broker that a lower-case text names.
pub fn broker_from_lower(lower: &str) -> (r: BrokerType)
    ensures
        r == broker_of(lower@),
{
    if same_text(lower, "redpanda") {
        BrokerType::Redpanda
    } else if same_text(lower, "kafka") {
        BrokerType::Kafka
    } else if same_text(lower, "grpc") {
        BrokerType::Grpc
    } else {
        BrokerType::Nats
    }
}

/// The run mode that a lower-case text names.
pub fn run_mode_from_lower(lower: &str) -> (r: RunMode)
    ensures
        r == run_mode_of(lower@),
{
    if same_text(lower, "24b") {
        RunMode::Only24b
    } else if same_text(lower, "256b") {
        RunMode::Only256b
    } else if same_text(lower, "4kb") {
        RunMode::Only4kb
    } else if same_text(lower, "64kb") {
        RunMode::Only64kb
    } else if same_text(lower, "512kb") {
        RunMode::Only512kb
    } else if same_text(lower, "4mb") {
        RunMode::Only4mb
    } else if same_text(lower, "16mb") {
        RunMode::Only16mb
    } else if same_text(lower, "80mb") {
        RunMode::Only80mb
    } else {
        RunMode::Combined
    }
}

/// The payload type that a lower-case text names.
pub fn payload_type_from_lower(lower: &str) -> (r: PayloadType)
    ensures
        r == payload_type_of(lower@),
{
    if same_text(lower, "random_bytes") || same_text(lower, "random") {
        PayloadType::RandomBytes
    } else {
        PayloadType::Float32
    }
}

/// What a process does in a run.
#[derive(Debug, Clone, Copy, PartialEq, Eq, Structural)]
pub enum Runner {
    NatsProducer,
    NatsConsumer,
    RedpandaProducer,
    RedpandaConsumer,
    GrpcProducer,
    GrpcConsumer,
}

/// What a process does, by its role and the broker.
pub open spec fn runner_of(role: Role, broker: BrokerType) -> Runner {
    match (role, broker) {
        (Role::Producer, BrokerType::Nats) => Runner::NatsProducer,
        (Role::Consumer, BrokerType::Nats) => Runner::NatsConsumer,
        (Role::Producer, BrokerType::Redpanda | BrokerType::Kafka) => Runner::RedpandaProducer,
        (Role::Consumer, BrokerType::Redpanda | BrokerType::Kafka) => Runner::RedpandaConsumer,
        (Role::Producer, BrokerType::Grpc) => Runner::GrpcProducer,
        (Role::Consumer, BrokerType::Grpc) => Runner::GrpcConsumer,
    }
}

/// What a process does, by its role and the broker. Kafka is run like Redpanda.
pub fn select_runner(role: &Role, broker: &BrokerType) -> (r: Runner)
    ensures
        r == runner_of(*role, *broker),
        r == match (*role, *broker) {
            (Role::Producer, BrokerType::Nats) => Runner::NatsProducer,
            (Role::Consumer, BrokerType::Nats) => Runner::NatsConsumer,
            (Role::Producer, BrokerType::Redpanda | BrokerType::Kafka) => Runner::RedpandaProducer,
            (Role::Consumer, BrokerType::Redpanda | BrokerType::Kafka) => Runner::RedpandaConsumer,
            (Role::Producer, BrokerType::Grpc) => Runner::GrpcProducer,
            (Role::Consumer, BrokerType::Grpc) => Runner::GrpcConsumer,
        },
{
    match (role, broker) {
        (Role::Producer, BrokerType::Nats) => Runner::NatsProducer,
        (Role::Consumer, BrokerType::Nats) => Runner::NatsConsumer,
        (Role::Producer, BrokerType::Redpanda) => Runner::RedpandaProducer,
        (Role::Consumer, BrokerType::Redpanda) => Runner::RedpandaConsumer,
        (Role::Producer, BrokerType::Kafka) => Runner::RedpandaProducer,
        (Role::Consumer, BrokerType::Kafka) => Runner::RedpandaConsumer,
        (Role::Producer, BrokerType::Grpc) => Runner::GrpcProducer,
        (Role::Consumer, BrokerType::Grpc) => Runner::GrpcConsumer,
    }
}

/// Reads a role, whatever the case of its letters.
pub fn parse_role(s: &str) -> (r: Role)
    ensures
        r == role_of(lowercased(s@)),
        s.is_ascii() ==> r == role_of(ascii_lowercased(s@)),
{
    role_from_lower(to_lowercase(s).as_str())
}

/// Reads a broker type, whatever the case of its letters.
pub fn parse_broker_type(s: &str) -> (r: BrokerType)
    ensures
        r == broker_of(lowercased(s@)),
        s.is_ascii() ==> r == broker_of(ascii_lowercased(s@)),
{
    broker_from_lower(to_lowercase(s).as_str())
}

/// Reads a run mode, whatever the case of its letters.
pub fn parse_run_mode(s: &str) -> (r: RunMode)
    ensures
        r == run_mode_of(lowercased(s@)),
        s.is_ascii() ==> r == run_mode_of(ascii_lowercased(s@)),
{
    run_mode_from_lower(to_lowercase(s).as_str())
}

/// Reads a payload type, whatever the case of its letters.
pub fn parse_payload_type(s: &str) -> (r: PayloadType)
    ensures
        r == payload_type_of(lowercased(s@)),
        s.is_ascii() ==> r == payload_type_of(ascii_lowercased(s@)),
{
    payload_type_from_lower(to_lowercase(s).as_str())
}

/// The texts of the environment variables that set up a run, each `None` where it is not set.
#[derive(Debug, Clone, Default)]
pub struct RawConfig {
    pub role: Option<String>,
    pub broker_type: Option<String>,
    pub broker_endpoint: Option<String>,
    pub gbps_target: Option<String>,
    pub run_mode: Option<String>,
    pub topic_prefix: Option<String>,
    pub run_duration_secs: Option<String>,
    pub producer_start_delay_secs: Option<String>,
    pub run_id: Option<String>,
    pub output_dir: Option<String>,
    pub partitions: Option<String>,
    pub producer_tasks: Option<String>,
    pub consumer_tasks: Option<String>,
    pub report_interval_secs: Option<String>,
    pub payload_type: Option<String>,
    pub max_msg_rate: Option<String>,
}

/// The settings of a run.
#[derive(Debug, Clone)]
pub struct Config {
    pub role: Role,
    pub broker_type: BrokerType,
    pub broker_endpoint: String,
    /// Target throughput in gigabits per second, in the notation in which it was given.
    pub gbps_target: String,
    /// Target throughput in bits per second.
    pub target: Ratio,
    pub run_mode: RunMode,
    pub topic_prefix: String,
    pub run_duration_secs: u64,
    pub producer_start_delay_secs: u64,
    pub run_id: String,
    pub output_dir: String,
    pub num_partitions: usize,
    /// Number of parallel producer tasks.
    pub num_producer_tasks: usize,
    /// Number of parallel consumer instances, each with its own slice of the partitions.
    pub num_consumer_tasks: usize,
    /// Seconds between throughput reports; 0 for none.
    pub report_interval_secs: u64,
    pub payload_type: PayloadType,
    /// Most messages per second on one stream.
    pub max_msg_rate: u64,
}

/// A setting that does not hold a number of the right kind.
#[derive(Debug, Clone, Copy, PartialEq, Eq, Structural)]
pub enum ConfigError {
    GbpsTarget,
    RunDuration,
    ProducerStartDelay,
    Partitions,
    ProducerTasks,
    ConsumerTasks,
    ReportInterval,
    MaxMsgRate,
}

impl ConfigError {
    /// What is wrong, in words.
    pub open spec fn text(self) -> Seq<char> {
        match self {
            ConfigError::GbpsTarget => "GBPS_TARGET must be a float"@,
            ConfigError::RunDuration => "RUN_DURATION_SECS must be u64"@,
            ConfigError::ProducerStartDelay => "PRODUCER_START_DELAY_SECS must be u64"@,
            ConfigError::Partitions => "PARTITIONS must be a positive integer"@,
            ConfigError::ProducerTasks => "PRODUCER_TASKS must be a positive integer"@,
            ConfigError::ConsumerTasks => "CONSUMER_TASKS must be a positive integer"@,
            ConfigError::ReportInterval => "REPORT_INTERVAL_SECS must be u64"@,
            ConfigError::MaxMsgRate => "MAX_MSG_RATE must be a positive integer"@,
        }
    }

    /// What is wrong, as text.
    pub fn message(&self) -> (s: &'static str)
        ensures
            s@ == self.text(),
    {
        match self {
            ConfigError::GbpsTarget => "GBPS_TARGET must be a float",
            ConfigError::RunDuration => "RUN_DURATION_SECS must be u64",
            ConfigError::ProducerStartDelay => "PRODUCER_START_DELAY_SECS must be u64",
            ConfigError::Partitions => "PARTITIONS must be a positive integer",
            ConfigError::ProducerTasks => "PRODUCER_TASKS must be a positive integer",
            ConfigError::ConsumerTasks => "CONSUMER_TASKS must be a positive integer",
            ConfigError::ReportInterval => "REPORT_INTERVAL_SECS must be u64",
            ConfigError::MaxMsgRate => "MAX_MSG_RATE must be a positive integer",
        }
    }
}

/// The text of a setting, or a default where it is not set.
pub open spec fn text_or(value: Option<String>, default: Seq<char>) -> Seq<char> {
    match value {
        Some(s) => s@,
        None => default,
    }
}

/// The number in a setting, or a default where it is not set; `None` where it holds no number.
pub open spec fn number_or(value: Option<String>, default: nat, max: nat) -> Option<nat> {
    match value {
        Some(s) => parsed_number(s@, max),
        None => Some(default),
    }
}

/// The number raised to 1 where it is 0.
pub open spec fn at_least_one(n: nat) -> nat {
    if n < 1 {
        1
    } else {
        n
    }
}

/// Where a broker listens unless told otherwise.
pub open spec fn default_endpoint(b: BrokerType) -> Seq<char> {
    match b {
        BrokerType::Redpanda | BrokerType::Kafka => "localhost:9092"@,
        BrokerType::Nats => "localhost:4222"@,
        BrokerType::Grpc => "0.0.0.0:50051"@,
    }
}

impl RawConfig {
    /// The broker under test.
    pub open spec fn broker(self) -> BrokerType {
        broker_of(lowercased(text_or(self.broker_type, "nats"@)))
    }

    /// The number of partitions; `None` where the setting holds no number.
    pub open spec fn partition_count(self) -> Option<nat> {
        match number_or(self.partitions, 16, usize::MAX as nat) {
            Some(n) => Some(at_least_one(n)),
            None => None,
        }
    }

    /// The first setting that does not hold a number where one is needed. `target_bits` is the
    /// target throughput in bits per second, in binary64 notation, `None` where its setting holds
    /// no number.
    pub open spec fn error(self, target_bits: Option<u64>) -> Option<ConfigError> {
        if target_bits is None {
            Some(ConfigError::GbpsTarget)
        } else if number_or(self.run_duration_secs, 120, u64::MAX as nat) is None {
            Some(ConfigError::RunDuration)
        } else if number_or(self.producer_start_delay_secs, 10, u64::MAX as nat) is None {
            Some(ConfigError::ProducerStartDelay)
        } else if self.partition_count() is None {
            Some(ConfigError::Partitions)
        } else if number_or(self.producer_tasks, 1, usize::MAX as nat) is None {
            Some(ConfigError::ProducerTasks)
        } else if number_or(self.consumer_tasks, 1, usize::MAX as nat) is None {
            Some(ConfigError::ConsumerTasks)
        } else if number_or(self.report_interval_secs, 5, u64::MAX as nat) is None {
            Some(ConfigError::ReportInterval)
        } else if number_or(self.max_msg_rate, 100, u64::MAX as nat) is None {
            Some(ConfigError::MaxMsgRate)
        } else {
            None
        }
    }
}

/// Whether a value is what a text of ASCII characters stands for once its letters are in lower
/// case. Nothing is said of other texts.
pub open spec fn reads_ascii<T>(
    value: T,
    text: Seq<char>,
    meaning: spec_fn(Seq<char>) -> T,
) -> bool {
    is_ascii_chars(text) ==> value == meaning(ascii_lowercased(text))
}

impl Config {
    /// Whether each setting that is a name is the one that an ASCII text stands for, whatever the
    /// case of its letters.
    pub open spec fn names_follow(self, raw: RawConfig) -> bool {
        &&& reads_ascii(self.role, text_or(raw.role, "consumer"@), |t| role_of(t))
        &&& reads_ascii(self.broker_type, text_or(raw.broker_type, "nats"@), |t| broker_of(t))
        &&& reads_ascii(self.run_mode, text_or(raw.run_mode, "combined"@), |t| run_mode_of(t))
        &&& reads_ascii(
            self.payload_type,
            text_or(raw.payload_type, "float32"@),
            |t| payload_type_of(t),
        )
    }

    /// Whether these are the settings that the texts stand for, in a run that starts at the given
    /// time. The number of tasks defaults to the number of partitions, the run id to the time.
    pub open spec fn follows(
        self,
        raw: RawConfig,
        target_bits: Option<u64>,
        now_secs: u64,
    ) -> bool {
        let partitions = raw.partition_count()->0;
        &&& self.role == role_of(lowercased(text_or(raw.role, "consumer"@)))
        &&& self.broker_type == raw.broker()
        &&& self.broker_endpoint@ == text_or(raw.broker_endpoint, default_endpoint(raw.broker()))
        &&& self.gbps_target@ == text_or(raw.gbps_target, "1.0"@)
        &&& target_bits is Some && self.target == target_of(target_bits->0)
        &&& self.run_mode == run_mode_of(lowercased(text_or(raw.run_mode, "combined"@)))
        &&& self.topic_prefix@ == text_or(raw.topic_prefix, "benchmark"@)
        &&& Some(self.run_duration_secs as nat) == number_or(
            raw.run_duration_secs,
            120,
            u64::MAX as nat,
        )
        &&& Some(self.producer_start_delay_secs as nat) == number_or(
            raw.producer_start_delay_secs,
            10,
            u64::MAX as nat,
        )
        &&& self.run_id@ == text_or(raw.run_id, decimal(now_secs as nat))
        &&& self.output_dir@ == text_or(raw.output_dir, "."@)
        &&& self.num_partitions == partitions
        &&& self.num_producer_tasks == at_least_one(
            number_or(raw.producer_tasks, partitions, usize::MAX as nat)->0,
        )
        &&& self.num_consumer_tasks == at_least_one(
            number_or(raw.consumer_tasks, partitions, usize::MAX as nat)->0,
        )
        &&& Some(self.report_interval_secs as nat) == number_or(
            raw.report_interval_secs,
            5,
            u64::MAX as nat,
        )
        &&& self.payload_type == payload_type_of(lowercased(text_or(raw.payload_type, "float32"@)))
        &&& self.max_msg_rate == at_least_one(
            number_or(raw.max_msg_rate, 100, u64::MAX as nat)->0,
        )
    }
}

/// The text of a setting, or a default where it is not set.
pub fn env_var(value: &Option<String>, default: &str) -> (r: String)
    ensures
        r@ == text_or(*value, default@),
{
    match value {
        Some(s) => s.clone(),
        None => default.to_owned(),
    }
}

fn number(value: &Option<String>, default: u64, max: u64) -> (r: Option<u64>)
    ensures
        r is Some <==> number_or(*value, default as nat, max as nat) is Some,
        r matches Some(n) ==> number_or(*value, default as nat, max as nat) == Some(n as nat) && (
        default <= max ==> n <= max),
{
    match value {
        Some(s) => parse_number(s.as_str(), max),
        None => Some(default),
    }
}

fn raised(n: u64) -> (r: u64)
    ensures
        r == at_least_one(n as nat),
{
    if n < 1 {
        1
    } else {
        n
    }
}

/// The target throughput in gigabits per second, as text.
pub fn gbps_target_text(raw: &RawConfig) -> (r: String)
    ensures
        r@ == text_or(raw.gbps_target, "1.0"@),
{
    env_var(&raw.gbps_target, "1.0")
}

/// Reads the settings of a run that starts at the given time, or finds the first that does not
/// hold a number where one is needed. `target_bits` is the target throughput in bits per second, in
/// binary64 notation, `None` where its setting holds no number.
pub fn parse_config(raw: &RawConfig, target_bits: Option<u64>, now_secs: u64) -> (r: Result<
    Config,
    ConfigError,
>)
    ensures
        r is Err <==> raw.error(target_bits) is Some,
        r matches Err(e) ==> raw.error(target_bits) == Some(e),
        r matches Ok(c) ==> c.follows(*raw, target_bits, now_secs) && c.names_follow(*raw)
            && is_target(c.target),
{
    let role = parse_role(env_var(&raw.role, "consumer").as_str());
    let broker_type = parse_broker_type(env_var(&raw.broker_type, "nats").as_str());
    let broker_endpoint = env_var(
        &raw.broker_endpoint,
        match broker_type {
            BrokerType::Redpanda | BrokerType::Kafka => "localhost:9092",
            BrokerType::Nats => "localhost:4222",
            BrokerType::Grpc => "0.0.0.0:50051",
        },
    );
    let gbps_target = gbps_target_text(raw);
    let target = match target_bits {
        Some(bits) => target_from_bits(bits),
        None => return Err(ConfigError::GbpsTarget),
    };
    let run_mode = parse_run_mode(env_var(&raw.run_mode, "combined").as_str());
    let topic_prefix = env_var(&raw.topic_prefix, "benchmark");
    let run_duration_secs: u64 = match number(&raw.run_duration_secs, 120, u64::MAX) {
        Some(n) => n,
        None => return Err(ConfigError::RunDuration),
    };
    let producer_start_delay_secs: u64 = match number(
        &raw.producer_start_delay_secs,
        10,
        u64::MAX,
    ) {
        Some(n) => n,
        None => return Err(ConfigError::ProducerStartDelay),
    };
    let mut default_run_id = String::new();
    push_decimal(&mut default_run_id, now_secs as u128);
    let run_id = env_var(&raw.run_id, default_run_id.as_str());
    let output_dir = env_var(&raw.output_dir, ".");
    let max_count: u64 = usize::MAX as u64;
    let partitions: u64 = match number(&raw.partitions, 16, max_count) {
        Some(n) => raised(n),
        None => return Err(ConfigError::Partitions),
    };
    let producer_tasks: u64 = match number(&raw.producer_tasks, partitions, max_count) {
        Some(n) => raised(n),
        None => return Err(ConfigError::ProducerTasks),
    };
    let consumer_tasks: u64 = match number(&raw.consumer_tasks, partitions, max_count) {
        Some(n) => raised(n),
        None => return Err(ConfigError::ConsumerTasks),
    };
    let report_interval_secs: u64 = match number(&raw.report_interval_secs, 5, u64::MAX) {
        Some(n) => n,
        None => return Err(ConfigError::ReportInterval),
    };
    let payload_type = parse_payload_type(env_var(&raw.payload_type, "float32").as_str());
    let max_msg_rate: u64 = match number(&raw.max_msg_rate, 100, u64::MAX) {
        Some(n) => raised(n),
        None => return Err(ConfigError::MaxMsgRate),
    };
    Ok(
        Config {
            role,
            broker_type,
            broker_endpoint,
            gbps_target,
            target,
            run_mode,
            topic_prefix,
            run_duration_secs,
            producer_start_delay_secs,
            run_id,
            output_dir,
            num_partitions: partitions as usize,
            num_producer_tasks: producer_tasks as usize,
            num_consumer_tasks: consumer_tasks as usize,
            report_interval_secs,
            payload_type,
            max_msg_rate,
        },
    )
}

/// The name of a broker reads back as that broker, in any case of its letters.
pub proof fn law_broker_name_reads_back(b: BrokerType, s: Seq<char>)
    requires
        ascii_lowercased(s) == broker_name(b),
    ensures
        broker_of(ascii_lowercased(s)) == b,
{
    lemma_texts_differ();
}

/// The name of a run mode reads back as that mode, in any case of its letters.
pub proof fn law_run_mode_name_reads_back(m: RunMode, s: Seq<char>)
    requires
        ascii_lowercased(s) == run_mode_name(m),
    ensures
        run_mode_of(ascii_lowercased(s)) == m,
{
    lemma_run_mode_names();
}

/// The name of a role reads back as that role, in any case of its letters.
pub proof fn law_role_name_reads_back(r: Role, s: Seq<char>)
    requires
        ascii_lowercased(s) == role_name(r),
    ensures
        role_of(ascii_lowercased(s)) == r,
{
    lemma_texts_differ();
}

proof fn lemma_texts_differ()
    ensures
        "producer"@ != "consumer"@,
        "redpanda"@ != "kafka"@,
        "redpanda"@ != "grpc"@,
        "redpanda"@ != "nats"@,
        "kafka"@ != "grpc"@,
        "kafka"@ != "nats"@,
        "grpc"@ != "nats"@,
{
    reveal_strlit("producer");
    reveal_strlit("consumer");
    reveal_strlit("redpanda");
    reveal_strlit("kafka");
    reveal_strlit("grpc");
    reveal_strlit("nats");
    assert("producer"@[0] != "consumer"@[0]);
    assert("redpanda"@.len() == 8 && "kafka"@.len() == 5);
    assert("grpc"@.len() == 4 && "nats"@.len() == 4 && "grpc"@[0] != "nats"@[0]);
}

/// How the names of the run modes can be told apart.
pub proof fn lemma_run_mode_names()
    ensures
        "combined"@.len() == 8,
        "512kb"@.len() == 5,
        "24b"@.len() == 3 && "24b"@[0] == '2',
        "4kb"@.len() == 3 && "4kb"@[0] == '4' && "4kb"@[1] == 'k',
        "4mb"@.len() == 3 && "4mb"@[0] == '4' && "4mb"@[1] == 'm',
        "256b"@.len() == 4 && "256b"@[0] == '2',
        "64kb"@.len() == 4 && "64kb"@[0] == '6',
        "16mb"@.len() == 4 && "16mb"@[0] == '1',
        "80mb"@.len() == 4 && "80mb"@[0] == '8',
{
    reveal_strlit("combined");
    reveal_strlit("24b");
    reveal_strlit("256b");
    reveal_strlit("4kb");
    reveal_strlit("64kb");
    reveal_strlit("512kb");
    reveal_strlit("4mb");
    reveal_strlit("16mb");
    reveal_strlit("80mb");
}

/// The counts of a run are never 0.
pub proof fn law_counts_are_positive(
    c: Config,
    raw: RawConfig,
    target_bits: Option<u64>,
    now_secs: u64,
)
    requires
        raw.error(target_bits) is None,
        c.follows(raw, target_bits, now_secs),
    ensures
        c.num_partitions >= 1,
        c.num_producer_tasks >= 1,
        c.num_consumer_tasks >= 1,
        c.max_msg_rate >= 1,
{
}

/// Whether a setting is given by a text.
pub open spec fn given(value: Option<String>, text: Seq<char>) -> bool {
    value is Some && value->0@ == text
}

/// A number in decimal notation is taken as it is, by each setting for itself; only where a count
/// or a rate is needed, 0 counts as 1.
pub proof fn law_numbers_are_taken(
    c: Config,
    raw: RawConfig,
    target_bits: Option<u64>,
    now_secs: u64,
    n: nat,
)
    requires
        c.follows(raw, target_bits, now_secs),
        n <= usize::MAX,
    ensures
        given(raw.run_duration_secs, decimal(n)) ==> c.run_duration_secs == n,
        given(raw.producer_start_delay_secs, decimal(n)) ==> c.producer_start_delay_secs == n,
        given(raw.report_interval_secs, decimal(n)) ==> c.report_interval_secs == n,
        n > 0 && given(raw.partitions, decimal(n)) ==> c.num_partitions == n,
        n > 0 && given(raw.producer_tasks, decimal(n)) ==> c.num_producer_tasks == n,
        n > 0 && given(raw.consumer_tasks, decimal(n)) ==> c.num_consumer_tasks == n,
        n > 0 && given(raw.max_msg_rate, decimal(n)) ==> c.max_msg_rate == n,
        given(raw.partitions, decimal(0)) ==> c.num_partitions == 1,
        given(raw.producer_tasks, decimal(0)) ==> c.num_producer_tasks == 1,
        given(raw.consumer_tasks, decimal(0)) ==> c.num_consumer_tasks == 1,
        given(raw.max_msg_rate, decimal(0)) ==> c.max_msg_rate == 1,
{
    law_decimal_reads_back(n, u64::MAX as nat);
    law_decimal_reads_back(n, usize::MAX as nat);
    law_decimal_reads_back(0, u64::MAX as nat);
    law_decimal_reads_back(0, usize::MAX as nat);
}

/// A setting that is a text is taken letter for letter.
pub proof fn law_texts_are_taken(
    c: Config,
    raw: RawConfig,
    target_bits: Option<u64>,
    now_secs: u64,
    s: Seq<char>,
)
    requires
        c.follows(raw, target_bits, now_secs),
    ensures
        given(raw.broker_endpoint, s) ==> c.broker_endpoint@ == s,
        given(raw.gbps_target, s) ==> c.gbps_target@ == s,
        given(raw.topic_prefix, s) ==> c.topic_prefix@ == s,
        given(raw.run_id, s) ==> c.run_id@ == s,
        given(raw.output_dir, s) ==> c.output_dir@ == s,
{
}

/// What holds where a setting is not given. The tasks are then as many as the partitions, and the
/// run id is the time.
pub proof fn law_defaults(c: Config, raw: RawConfig, target_bits: Option<u64>, now_secs: u64)
    requires
        c.follows(raw, target_bits, now_secs),
        c.names_follow(raw),
    ensures
        raw.role is None ==> c.role == Role::Consumer,
        raw.broker_type is None ==> c.broker_type == BrokerType::Nats,
        raw.run_mode is None ==> c.run_mode == RunMode::Combined,
        raw.payload_type is None ==> c.payload_type == PayloadType::Float32,
        raw.gbps_target is None ==> c.gbps_target@ == "1.0"@,
        raw.topic_prefix is None ==> c.topic_prefix@ == "benchmark"@,
        raw.output_dir is None ==> c.output_dir@ == "."@,
        raw.run_id is None ==> c.run_id@ == decimal(now_secs as nat),
        raw.run_duration_secs is None ==> c.run_duration_secs == 120,
        raw.producer_start_delay_secs is None ==> c.producer_start_delay_secs == 10,
        raw.report_interval_secs is None ==> c.report_interval_secs == 5,
        raw.max_msg_rate is None ==> c.max_msg_rate == 100,
        raw.partitions is None ==> c.num_partitions == 16,
        c.num_partitions > 0 && raw.producer_tasks is None ==> c.num_producer_tasks
            == c.num_partitions,
        c.num_partitions > 0 && raw.consumer_tasks is None ==> c.num_consumer_tasks
            == c.num_partitions,
        raw.broker_endpoint is None && c.broker_type == BrokerType::Nats ==> c.broker_endpoint@
            == "localhost:4222"@,
        raw.broker_endpoint is None && c.broker_type == BrokerType::Grpc ==> c.broker_endpoint@
            == "0.0.0.0:50051"@,
        raw.broker_endpoint is None && (c.broker_type == BrokerType::Redpanda || c.broker_type
            == BrokerType::Kafka) ==> c.broker_endpoint@ == "localhost:9092"@,
{
    lemma_texts_differ();
    lemma_default_names();
    lemma_run_mode_names();
}

/// The names that settings default to, in lower case already.
proof fn lemma_default_names()
    ensures
        is_ascii_chars("consumer"@) && ascii_lowercased("consumer"@) == "consumer"@,
        is_ascii_chars("nats"@) && ascii_lowercased("nats"@) == "nats"@,
        is_ascii_chars("combined"@) && ascii_lowercased("combined"@) == "combined"@,
        is_ascii_chars("float32"@) && ascii_lowercased("float32"@) == "float32"@,
        "float32"@ != "random"@ && "float32"@ != "random_bytes"@,
{
    reveal_strlit("consumer");
    reveal_strlit("nats");
    reveal_strlit("combined");
    reveal_strlit("float32");
    reveal_strlit("random");
    reveal_strlit("random_bytes");
    assert(ascii_lowercased("consumer"@) =~= "consumer"@);
    assert(ascii_lowercased("nats"@) =~= "nats"@);
    assert(ascii_lowercased("combined"@) =~= "combined"@);
    assert(ascii_lowercased("float32"@) =~= "float32"@);
    assert("float32"@.len() == 7 && "random"@.len() == 6 && "random_bytes"@.len() == 12);
}

/// A role, a broker and a run mode are set by their names, in any case of the letters. A text that
/// is no such name sets the consumer, NATS, and all sizes. Random bytes are set by two names, and
/// any other text sets floating-point samples.
pub proof fn law_names_are_taken(c: Config, raw: RawConfig, s: Seq<char>)
    requires
        c.names_follow(raw),
        is_ascii_chars(s),
    ensures
        given(raw.role, s) ==> (c.role == Role::Producer <==> ascii_lowercased(s) == "producer"@),
        given(raw.broker_type, s) ==> {
            &&& c.broker_type == BrokerType::Redpanda <==> ascii_lowercased(s) == "redpanda"@
            &&& c.broker_type == BrokerType::Kafka <==> ascii_lowercased(s) == "kafka"@
            &&& c.broker_type == BrokerType::Grpc <==> ascii_lowercased(s) == "grpc"@
        },
        given(raw.run_mode, s) ==> {
            &&& c.run_mode != RunMode::Combined ==> ascii_lowercased(s) == run_mode_name(c.run_mode)
            &&& forall|m: RunMode| #[trigger]
                run_mode_name(m) == ascii_lowercased(s) ==> c.run_mode == m
        },
        given(raw.payload_type, s) ==> (c.payload_type == PayloadType::RandomBytes <==> (
        ascii_lowercased(s) == "random"@ || ascii_lowercased(s) == "random_bytes"@)),
{
    lemma_texts_differ();
    lemma_run_mode_names();
}

/// Letters go to lower case one by one, and nothing else changes.
pub proof fn law_lower_case(s: Seq<char>, i: int)
    requires
        0 <= i < s.len(),
    ensures
        ascii_lowercased(s).len() == s.len(),
        'A' <= s[i] <= 'Z' ==> ascii_lowercased(s)[i] as int - 'a' as int == s[i] as int
            - 'A' as int,
        !('A' <= s[i] <= 'Z') ==> ascii_lowercased(s)[i] == s[i],
{
}

/// Whether a setting is not given, or is a number of at most `max` in text.
pub open spec fn fine(value: Option<String>, max: nat) -> bool {
    value is Some ==> parsed_number(value->0@, max) is Some
}

/// Settings are refused exactly if the target or another number among them is none, and what is
/// reported is the first such setting: those before it are fine.
pub proof fn law_first_error(raw: RawConfig, target_bits: Option<u64>)
    ensures
        ({
            let word = u64::MAX as nat;
            let size = usize::MAX as nat;
            let e = raw.error(target_bits);
            let to_delay = target_bits is Some && fine(raw.run_duration_secs, word);
            let to_partitions = to_delay && fine(raw.producer_start_delay_secs, word);
            let to_producers = to_partitions && fine(raw.partitions, size);
            let to_consumers = to_producers && fine(raw.producer_tasks, size);
            let to_interval = to_consumers && fine(raw.consumer_tasks, size);
            let to_rate = to_interval && fine(raw.report_interval_secs, word);
            &&& e is None <==> to_rate && fine(raw.max_msg_rate, word)
            &&& e == Some(ConfigError::GbpsTarget) <==> target_bits is None
            &&& e == Some(ConfigError::RunDuration) <==> target_bits is Some && !to_delay
            &&& e == Some(ConfigError::ProducerStartDelay) <==> to_delay && !to_partitions
            &&& e == Some(ConfigError::Partitions) <==> to_partitions && !to_producers
            &&& e == Some(ConfigError::ProducerTasks) <==> to_producers && !to_consumers
            &&& e == Some(ConfigError::ConsumerTasks) <==> to_consumers && !to_interval
            &&& e == Some(ConfigError::ReportInterval) <==> to_interval && !to_rate
            &&& e == Some(ConfigError::MaxMsgRate) <==> to_rate && !fine(raw.max_msg_rate, word)
        }),
{
}

/// A process does the same as another exactly if both have one role, and their brokers are the same
/// or both of the Kafka kind. Producers and consumers keep to their sides.
pub proof fn law_runners(a: Role, x: BrokerType, b: Role, y: BrokerType)
    ensures
        runner_of(a, x) == runner_of(b, y) <==> a == b && (x == y || (x == BrokerType::Redpanda
            && y == BrokerType::Kafka) || (x == BrokerType::Kafka && y == BrokerType::Redpanda)),
        a == Role::Producer <==> (runner_of(a, x) == Runner::NatsProducer || runner_of(a, x)
            == Runner::RedpandaProducer || runner_of(a, x) == Runner::GrpcProducer),
        x == BrokerType::Nats <==> (runner_of(a, x) == Runner::NatsProducer || runner_of(a, x)
            == Runner::NatsConsumer),
        x == BrokerType::Grpc <==> (runner_of(a, x) == Runner::GrpcProducer || runner_of(a, x)
            == Runner::GrpcConsumer),
{
}

} // verus!
