//! The report of a run, in Markdown.
use crate::config::{run_mode_name, run_mode_str, BrokerType, Config, PayloadType, RunMode};
use crate::summary::StreamSummary;
use crate::text::{decimal, push_decimal};
use vstd::prelude::*;
use vstd::string::StringExecFns;

verus! {

/// The machine that a run took place on.
#[derive(Debug, Clone)]
pub struct Hardware {
    pub os: String,
    pub cpu_count: usize,
    pub total_ram_bytes: u64,
    pub in_container: bool,
}

/// What the report says of one stream. Numbers with decimal places are given as text.
#[derive(Debug, Clone)]
pub struct ReportRow {
    pub size_label: String,
    /// How much of its target the stream reached, in whole percent.
    pub efficiency: u64,
    pub messages_received: u64,
    pub messages_lost: u64,
    pub target_gbps: String,
    pub achieved_gbps: String,
    pub p50_ms: String,
    pub p95_ms: String,
    pub p99_ms: String,
    pub max_ms: String,
}

/// The figures of a stream that have decimal places, as text.
#[derive(Debug, Clone)]
pub struct RowTexts {
    pub target_gbps: String,
    pub achieved_gbps: String,
    pub p50_ms: String,
    pub p95_ms: String,
    pub p99_ms: String,
    pub max_ms: String,
}

/// What the report says of a stream, from its figures and their texts, and from how much of its
/// target it reached.
pub fn report_row(s: &StreamSummary, efficiency: u64, texts: RowTexts) -> (r: ReportRow)
    ensures
        r.size_label@ == s.size_label@,
        r.efficiency == efficiency,
        r.messages_received == s.messages_received,
        r.messages_lost == s.messages_lost,
        r.target_gbps == texts.target_gbps,
        r.achieved_gbps == texts.achieved_gbps,
        r.p50_ms == texts.p50_ms,
        r.p95_ms == texts.p95_ms,
        r.p99_ms == texts.p99_ms,
        r.max_ms == texts.max_ms,
{
    ReportRow {
        size_label: s.size_label.to_owned(),
        efficiency,
        messages_received: s.messages_received,
        messages_lost: s.messages_lost,
        target_gbps: texts.target_gbps,
        achieved_gbps: texts.achieved_gbps,
        p50_ms: texts.p50_ms,
        p95_ms: texts.p95_ms,
        p99_ms: texts.p99_ms,
        max_ms: texts.max_ms,
    }
}

/// The part of the target that one stream is held to, in percent: a quarter in the combined mode,
/// else all of it.
pub open spec fn stream_target_percent(mode: RunMode) -> nat {
    if mode == RunMode::Combined {
        25
    } else {
        100
    }
}

/// The messages that a list of streams has received.
pub open spec fn messages_of(rows: Seq<ReportRow>) -> nat
    decreases rows.len(),
{
    if rows.len() == 0 {
        0
    } else {
        messages_of(rows.drop_last()) + rows.last().messages_received as nat
    }
}

/// The messages that a list of streams has lost.
pub open spec fn losses_of(rows: Seq<ReportRow>) -> nat
    decreases rows.len(),
{
    if rows.len() == 0 {
        0
    } else {
        losses_of(rows.drop_last()) + rows.last().messages_lost as nat
    }
}

/// What a broker is called in the report.
pub open spec fn broker_title(b: BrokerType) -> Seq<char> {
    match b {
        BrokerType::Redpanda => "Redpanda"@,
        BrokerType::Kafka => "Kafka"@,
        BrokerType::Nats => "Nats"@,
        BrokerType::Grpc => "Grpc"@,
    }
}

/// What a payload type is called in the report.
pub open spec fn payload_title(p: PayloadType) -> Seq<char> {
    match p {
        PayloadType::Float32 => "float32 correlated (LZ4-compressible)"@,
        PayloadType::RandomBytes => "random bytes (entropy baseline)"@,
    }
}

/// The section on the machine.
pub open spec fn hardware_text(hw: Hardware) -> Seq<char> {
    "# Broker Benchmark Report\n\n## Hardware\n| Property | Value |\n|---|---|\n| OS | "@ + hw.os@
        + " |\n| Logical CPU cores | "@ + decimal(hw.cpu_count as nat) + " |\n| Total RAM | "@
        + decimal((hw.total_ram_bytes / 1_073_741_824) as nat) + " GB |\n| Container | "@ + (
    if hw.in_container {
        "yes (Docker)"@
    } else {
        "no"@
    }) + " |\n"@
}

/// The section on the settings of the run.
pub open spec fn setup_text(c: Config, gbps_target: Seq<char>) -> Seq<char> {
    "\n## Test Setup\n| Parameter | Value |\n|---|---|\n| Broker | "@ + broker_title(c.broker_type)
        + " @ "@ + c.broker_endpoint@ + " |\n| Run mode | "@ + run_mode_name(c.run_mode)
        + " |\n| GBPS target | "@ + gbps_target + " |\n| Duration | "@ + decimal(
        c.run_duration_secs as nat,
    ) + "s |\n| Partitions | "@ + decimal(c.num_partitions as nat) + " |\n| Producer tasks | "@
        + decimal(c.num_producer_tasks as nat) + " |\n| Consumer tasks | "@ + decimal(
        c.num_consumer_tasks as nat,
    ) + " |\n| Payload type | "@ + payload_title(c.payload_type) + " |\n| Max msg rate | "@
        + decimal(c.max_msg_rate as nat)
        + " msg/s/stream |\n| Compression | LZ4 |\n| Run ID | "@ + c.run_id@ + " |\n"@
}

/// The line on one stream.
pub open spec fn row_text(row: ReportRow) -> Seq<char> {
    "| "@ + row.size_label@ + " | "@ + row.target_gbps@ + " | "@ + row.achieved_gbps@ + " | "@
        + decimal(row.efficiency as nat) + "% | "@ + decimal(row.messages_received as nat) + " | "@
        + decimal(row.messages_lost as nat) + " | "@ + row.p50_ms@ + " | "@ + row.p95_ms@ + " | "@
        + row.p99_ms@ + " | "@ + row.max_ms@ + " |\n"@
}

/// The lines on a number of streams.
pub open spec fn rows_text(rows: Seq<ReportRow>) -> Seq<char>
    decreases rows.len(),
{
    if rows.len() == 0 {
        Seq::empty()
    } else {
        rows_text(rows.drop_last()) + row_text(rows.last())
    }
}

/// What stands above the lines on the streams.
pub open spec fn results_heading() -> Seq<char> {
    "\n## Results\n| Message Size | Target Gbps | Achieved Gbps | Efficiency | Messages | Lost | p50 ms | p95 ms | p99 ms | max ms |\n|---|---|---|---|---|---|---|---|---|---|\n"@
}

/// The section on the run as a whole.
pub open spec fn summary_text(
    gbps_target: Seq<char>,
    achieved: Seq<char>,
    efficiency: u64,
    rows: Seq<ReportRow>,
) -> Seq<char> {
    "\n## Summary\n| Metric | Value |\n|---|---|\n| Target Gbps | "@ + gbps_target
        + " |\n| Achieved Gbps | **"@ + achieved + "** |\n| Efficiency | **"@ + decimal(
        efficiency as nat,
    ) + "%** |\n| Messages received | "@ + decimal(messages_of(rows))
        + " |\n| Messages lost | **"@ + decimal(losses_of(rows)) + "** |\n"@
}

/// The whole report.
pub open spec fn report_text(
    c: Config,
    hw: Hardware,
    gbps_target: Seq<char>,
    achieved: Seq<char>,
    efficiency: u64,
    rows: Seq<ReportRow>,
) -> Seq<char> {
    hardware_text(hw) + setup_text(c, gbps_target) + results_heading() + rows_text(rows)
        + summary_text(gbps_target, achieved, efficiency, rows)
}

/// The part of the target that one stream is held to, in percent.
pub fn target_percent(mode: &RunMode) -> (r: u64)
    ensures
        r == stream_target_percent(*mode),
{
    match mode {
        RunMode::Combined => 25,
        _ => 100,
    }
}

fn hardware_section(hw: &Hardware) -> (r: String)
    ensures
        r@ == hardware_text(*hw),
{
    let mut out = String::new();
    out.append(
        "# Broker Benchmark Report\n\n## Hardware\n| Property | Value |\n|---|---|\n| OS | ",
    );
    assert(out@
        =~= "# Broker Benchmark Report\n\n## Hardware\n| Property | Value |\n|---|---|\n| OS | "@);
    out.append(hw.os.as_str());
    out.append(" |\n| Logical CPU cores | ");
    push_decimal(&mut out, hw.cpu_count as u128);
    out.append(" |\n| Total RAM | ");
    push_decimal(&mut out, (hw.total_ram_bytes / 1_073_741_824) as u128);
    out.append(" GB |\n| Container | ");
    out.append(
        if hw.in_container {
            "yes (Docker)"
        } else {
            "no"
        },
    );
    out.append(" |\n");
    out
}

fn setup_section(c: &Config, gbps_target: &str) -> (r: String)
    ensures
        r@ == setup_text(*c, gbps_target@),
{
    let mut out = String::new();
    out.append("\n## Test Setup\n| Parameter | Value |\n|---|---|\n| Broker | ");
    assert(out@ =~= "\n## Test Setup\n| Parameter | Value |\n|---|---|\n| Broker | "@);
    out.append(
        match c.broker_type {
            BrokerType::Redpanda => "Redpanda",
            BrokerType::Kafka => "Kafka",
            BrokerType::Nats => "Nats",
            BrokerType::Grpc => "Grpc",
        },
    );
    out.append(" @ ");
    out.append(c.broker_endpoint.as_str());
    out.append(" |\n| Run mode | ");
    out.append(run_mode_str(&c.run_mode));
    out.append(" |\n| GBPS target | ");
    out.append(gbps_target);
    out.append(" |\n| Duration | ");
    push_decimal(&mut out, c.run_duration_secs as u128);
    out.append("s |\n| Partitions | ");
    push_decimal(&mut out, c.num_partitions as u128);
    out.append(" |\n| Producer tasks | ");
    push_decimal(&mut out, c.num_producer_tasks as u128);
    out.append(" |\n| Consumer tasks | ");
    push_decimal(&mut out, c.num_consumer_tasks as u128);
    out.append(" |\n| Payload type | ");
    out.append(
        match c.payload_type {
            PayloadType::Float32 => "float32 correlated (LZ4-compressible)",
            PayloadType::RandomBytes => "random bytes (entropy baseline)",
        },
    );
    out.append(" |\n| Max msg rate | ");
    push_decimal(&mut out, c.max_msg_rate as u128);
    out.append(" msg/s/stream |\n| Compression | LZ4 |\n| Run ID | ");
    out.append(c.run_id.as_str());
    out.append(" |\n");
    out
}

fn row_line(row: &ReportRow) -> (r: String)
    ensures
        r@ == row_text(*row),
{
    let mut out = String::new();
    out.append("| ");
    assert(out@ =~= "| "@);
    out.append(row.size_label.as_str());
    out.append(" | ");
    out.append(row.target_gbps.as_str());
    out.append(" | ");
    out.append(row.achieved_gbps.as_str());
    out.append(" | ");
    push_decimal(&mut out, row.efficiency as u128);
    out.append("% | ");
    push_decimal(&mut out, row.messages_received as u128);
    out.append(" | ");
    push_decimal(&mut out, row.messages_lost as u128);
    out.append(" | ");
    out.append(row.p50_ms.as_str());
    out.append(" | ");
    out.append(row.p95_ms.as_str());
    out.append(" | ");
    out.append(row.p99_ms.as_str());
    out.append(" | ");
    out.append(row.max_ms.as_str());
    out.append(" |\n");
    out
}

fn summary_section(
    gbps_target: &str,
    achieved_gbps: &str,
    efficiency: u64,
    rows: &Vec<ReportRow>,
) -> (r: String)
    ensures
        r@ == summary_text(gbps_target@, achieved_gbps@, efficiency, rows@),
{
    let n: usize = rows.len();
    let mut messages: u128 = 0;
    let mut lost: u128 = 0;
    for k in 0..n
        invariant
            n == rows@.len(),
            messages == messages_of(rows@.take(k as int)),
            lost == losses_of(rows@.take(k as int)),
            messages <= k * 0xffff_ffff_ffff_ffff,
            lost <= k * 0xffff_ffff_ffff_ffff,
    {
        assert(rows@.take(k + 1).drop_last() =~= rows@.take(k as int));
        proof {
            let most: int = 0xffff_ffff_ffff_ffff;
            assert((k + 1) * most == k * most + most) by (nonlinear_arith);
            assert((k + 1) * most <= u128::MAX) by (nonlinear_arith)
                requires
                    k < u64::MAX,
                    most == 0xffff_ffff_ffff_ffff,
            ;
        }
        messages = messages + rows[k].messages_received as u128;
        lost = lost + rows[k].messages_lost as u128;
    }
    assert(rows@.take(n as int) =~= rows@);
    let mut out = String::new();
    out.append("\n## Summary\n| Metric | Value |\n|---|---|\n| Target Gbps | ");
    assert(out@ =~= "\n## Summary\n| Metric | Value |\n|---|---|\n| Target Gbps | "@);
    out.append(gbps_target);
    out.append(" |\n| Achieved Gbps | **");
    out.append(achieved_gbps);
    out.append("** |\n| Efficiency | **");
    push_decimal(&mut out, efficiency as u128);
    out.append("%** |\n| Messages received | ");
    push_decimal(&mut out, messages);
    out.append(" |\n| Messages lost | **");
    push_decimal(&mut out, lost);
    out.append("** |\n");
    out
}

fn row_lines(rows: &Vec<ReportRow>) -> (r: String)
    ensures
        r@ == rows_text(rows@),
{
    let mut out = String::new();
    let n: usize = rows.len();
    for k in 0..n
        invariant
            n == rows@.len(),
            out@ == rows_text(rows@.take(k as int)),
    {
        let line = row_line(&rows[k]);
        out.append(line.as_str());
        assert(rows@.take(k + 1).drop_last() =~= rows@.take(k as int));
    }
    assert(rows@.take(n as int) =~= rows@);
    out
}

/// The report of a run. The target and the throughput of all streams together are given as text,
/// and how much of the target they reached in whole percent.
pub fn benchmark_report(
    c: &Config,
    hw: &Hardware,
    gbps_target: &str,
    achieved_gbps: &str,
    efficiency: u64,
    rows: &Vec<ReportRow>,
) -> (r: String)
    ensures
        r@ == report_text(*c, *hw, gbps_target@, achieved_gbps@, efficiency, rows@),
{
    let mut r = hardware_section(hw);
    let setup = setup_section(c, gbps_target);
    r.append(setup.as_str());
    r.append(
        "\n## Results\n| Message Size | Target Gbps | Achieved Gbps | Efficiency | Messages | Lost | p50 ms | p95 ms | p99 ms | max ms |\n|---|---|---|---|---|---|---|---|---|---|\n",
    );
    let lines = row_lines(rows);
    r.append(lines.as_str());
    let summary = summary_section(gbps_target, achieved_gbps, efficiency, rows);
    r.append(summary.as_str());
    r
}

/// The path of the report.
pub open spec fn report_path_text(c: Config) -> Seq<char> {
    c.output_dir@ + "/report_"@ + c.run_id@ + ".md"@
}

/// The path of the report.
pub fn report_path(c: &Config) -> (r: String)
    ensures
        r@ == report_path_text(*c),
        r@ == c.output_dir@ + "/report_"@ + c.run_id@ + ".md"@,
{
    let mut r = c.output_dir.clone();
    r.append("/report_");
    r.append(c.run_id.as_str());
    r.append(".md");
    r
}

} // verus!
