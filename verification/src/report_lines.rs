//! What stands in which line of the report.
use crate::config::{
    ascii_lowercased, broker_name, run_mode_name, BrokerType, Config, PayloadType, RunMode,
};
use crate::report::{
    broker_title, hardware_text, losses_of, messages_of, payload_title, report_path_text,
    report_text, results_heading, row_text, rows_text, setup_text, stream_target_percent,
    summary_text, Hardware, ReportRow,
};
use crate::text::{
    decimal, free_of, is_digit, lemma_decimal_digits, lemma_next_piece, lemma_split_concat,
    lemma_split_joined, lemma_split_piece, split,
};
use vstd::prelude::*;

verus! {

proof fn lemma_decimal_in_a_line(n: nat)
    ensures
        free_of(decimal(n), '\n'),
        free_of(decimal(n), '|'),
{
    lemma_decimal_digits(n);
    assert(forall|i: int| 0 <= i < decimal(n).len() ==> is_digit(#[trigger] decimal(n)[i]));
}

proof fn lemma_hardware_head()
    ensures
        split("# Broker Benchmark Report\n\n## Hardware\n| Property | Value |\n|---|---|\n| OS | "@, '\n') == seq![
            "# Broker Benchmark Report"@,
            ""@,
            "## Hardware"@,
            "| Property | Value |"@,
            "|---|---|"@,
            "| OS | "@,
        ],
{
    reveal_strlit("# Broker Benchmark Report\n\n## Hardware\n| Property | Value |\n|---|---|\n| OS | ");
    reveal_strlit("# Broker Benchmark Report");
    reveal_strlit("");
    reveal_strlit("## Hardware");
    reveal_strlit("| Property | Value |");
    reveal_strlit("|---|---|");
    reveal_strlit("| OS | ");
    lemma_split_piece("# Broker Benchmark Report"@, '\n');
    lemma_split_piece(""@, '\n');
    lemma_split_piece("## Hardware"@, '\n');
    lemma_split_piece("| Property | Value |"@, '\n');
    lemma_split_piece("|---|---|"@, '\n');
    lemma_split_piece("| OS | "@, '\n');
    let t0 = "# Broker Benchmark Report"@;
    let t1 = t0 + seq!['\n'] + ""@;
    lemma_split_joined(t0, ""@, '\n');
    let t2 = t1 + seq!['\n'] + "## Hardware"@;
    lemma_split_joined(t1, "## Hardware"@, '\n');
    let t3 = t2 + seq!['\n'] + "| Property | Value |"@;
    lemma_split_joined(t2, "| Property | Value |"@, '\n');
    let t4 = t3 + seq!['\n'] + "|---|---|"@;
    lemma_split_joined(t3, "|---|---|"@, '\n');
    let t5 = t4 + seq!['\n'] + "| OS | "@;
    lemma_split_joined(t4, "| OS | "@, '\n');
    assert("# Broker Benchmark Report\n\n## Hardware\n| Property | Value |\n|---|---|\n| OS | "@ =~= t5);
    assert(split("# Broker Benchmark Report\n\n## Hardware\n| Property | Value |\n|---|---|\n| OS | "@, '\n') =~= seq![
        "# Broker Benchmark Report"@,
        ""@,
        "## Hardware"@,
        "| Property | Value |"@,
        "|---|---|"@,
        "| OS | "@,
    ]);
}

proof fn lemma_setup_head()
    ensures
        split("\n## Test Setup\n| Parameter | Value |\n|---|---|\n| Broker | "@, '\n') == seq![
            ""@,
            "## Test Setup"@,
            "| Parameter | Value |"@,
            "|---|---|"@,
            "| Broker | "@,
        ],
{
    reveal_strlit("\n## Test Setup\n| Parameter | Value |\n|---|---|\n| Broker | ");
    reveal_strlit("");
    reveal_strlit("## Test Setup");
    reveal_strlit("| Parameter | Value |");
    reveal_strlit("|---|---|");
    reveal_strlit("| Broker | ");
    lemma_split_piece(""@, '\n');
    lemma_split_piece("## Test Setup"@, '\n');
    lemma_split_piece("| Parameter | Value |"@, '\n');
    lemma_split_piece("|---|---|"@, '\n');
    lemma_split_piece("| Broker | "@, '\n');
    let t0 = ""@;
    let t1 = t0 + seq!['\n'] + "## Test Setup"@;
    lemma_split_joined(t0, "## Test Setup"@, '\n');
    let t2 = t1 + seq!['\n'] + "| Parameter | Value |"@;
    lemma_split_joined(t1, "| Parameter | Value |"@, '\n');
    let t3 = t2 + seq!['\n'] + "|---|---|"@;
    lemma_split_joined(t2, "|---|---|"@, '\n');
    let t4 = t3 + seq!['\n'] + "| Broker | "@;
    lemma_split_joined(t3, "| Broker | "@, '\n');
    assert("\n## Test Setup\n| Parameter | Value |\n|---|---|\n| Broker | "@ =~= t4);
    assert(split("\n## Test Setup\n| Parameter | Value |\n|---|---|\n| Broker | "@, '\n') =~= seq![
        ""@,
        "## Test Setup"@,
        "| Parameter | Value |"@,
        "|---|---|"@,
        "| Broker | "@,
    ]);
}

proof fn lemma_summary_head()
    ensures
        split("\n## Summary\n| Metric | Value |\n|---|---|\n| Target Gbps | "@, '\n') == seq![
            ""@,
            "## Summary"@,
            "| Metric | Value |"@,
            "|---|---|"@,
            "| Target Gbps | "@,
        ],
{
    reveal_strlit("\n## Summary\n| Metric | Value |\n|---|---|\n| Target Gbps | ");
    reveal_strlit("");
    reveal_strlit("## Summary");
    reveal_strlit("| Metric | Value |");
    reveal_strlit("|---|---|");
    reveal_strlit("| Target Gbps | ");
    lemma_split_piece(""@, '\n');
    lemma_split_piece("## Summary"@, '\n');
    lemma_split_piece("| Metric | Value |"@, '\n');
    lemma_split_piece("|---|---|"@, '\n');
    lemma_split_piece("| Target Gbps | "@, '\n');
    let t0 = ""@;
    let t1 = t0 + seq!['\n'] + "## Summary"@;
    lemma_split_joined(t0, "## Summary"@, '\n');
    let t2 = t1 + seq!['\n'] + "| Metric | Value |"@;
    lemma_split_joined(t1, "| Metric | Value |"@, '\n');
    let t3 = t2 + seq!['\n'] + "|---|---|"@;
    lemma_split_joined(t2, "|---|---|"@, '\n');
    let t4 = t3 + seq!['\n'] + "| Target Gbps | "@;
    lemma_split_joined(t3, "| Target Gbps | "@, '\n');
    assert("\n## Summary\n| Metric | Value |\n|---|---|\n| Target Gbps | "@ =~= t4);
    assert(split("\n## Summary\n| Metric | Value |\n|---|---|\n| Target Gbps | "@, '\n') =~= seq![
        ""@,
        "## Summary"@,
        "| Metric | Value |"@,
        "|---|---|"@,
        "| Target Gbps | "@,
    ]);
}

proof fn lemma_results_head()
    ensures
        split("\n## Results\n| Message Size | Target Gbps | Achieved Gbps | Efficiency | Messages | Lost | p50 ms | p95 ms | p99 ms | max ms |\n|---|---|---|---|---|---|---|---|---|---|\n"@, '\n') == seq![
            ""@,
            "## Results"@,
            "| Message Size | Target Gbps | Achieved Gbps | Efficiency | Messages | Lost | p50 ms | p95 ms | p99 ms | max ms |"@,
            "|---|---|---|---|---|---|---|---|---|---|"@,
            ""@,
        ],
{
    reveal_strlit("\n## Results\n| Message Size | Target Gbps | Achieved Gbps | Efficiency | Messages | Lost | p50 ms | p95 ms | p99 ms | max ms |\n|---|---|---|---|---|---|---|---|---|---|\n");
    reveal_strlit("");
    reveal_strlit("## Results");
    reveal_strlit("| Message Size | Target Gbps | Achieved Gbps | Efficiency | Messages | Lost | p50 ms | p95 ms | p99 ms | max ms |");
    reveal_strlit("|---|---|---|---|---|---|---|---|---|---|");
    lemma_split_piece(""@, '\n');
    lemma_split_piece("## Results"@, '\n');
    lemma_split_piece("| Message Size | Target Gbps | Achieved Gbps | Efficiency | Messages | Lost | p50 ms | p95 ms | p99 ms | max ms |"@, '\n');
    lemma_split_piece("|---|---|---|---|---|---|---|---|---|---|"@, '\n');
    let t0 = ""@;
    let t1 = t0 + seq!['\n'] + "## Results"@;
    lemma_split_joined(t0, "## Results"@, '\n');
    let t2 = t1 + seq!['\n'] + "| Message Size | Target Gbps | Achieved Gbps | Efficiency | Messages | Lost | p50 ms | p95 ms | p99 ms | max ms |"@;
    lemma_split_joined(t1, "| Message Size | Target Gbps | Achieved Gbps | Efficiency | Messages | Lost | p50 ms | p95 ms | p99 ms | max ms |"@, '\n');
    let t3 = t2 + seq!['\n'] + "|---|---|---|---|---|---|---|---|---|---|"@;
    lemma_split_joined(t2, "|---|---|---|---|---|---|---|---|---|---|"@, '\n');
    let t4 = t3 + seq!['\n'] + ""@;
    lemma_split_joined(t3, ""@, '\n');
    assert("\n## Results\n| Message Size | Target Gbps | Achieved Gbps | Efficiency | Messages | Lost | p50 ms | p95 ms | p99 ms | max ms |\n|---|---|---|---|---|---|---|---|---|---|\n"@ =~= t4);
    assert(split("\n## Results\n| Message Size | Target Gbps | Achieved Gbps | Efficiency | Messages | Lost | p50 ms | p95 ms | p99 ms | max ms |\n|---|---|---|---|---|---|---|---|---|---|\n"@, '\n') =~= seq![
        ""@,
        "## Results"@,
        "| Message Size | Target Gbps | Achieved Gbps | Efficiency | Messages | Lost | p50 ms | p95 ms | p99 ms | max ms |"@,
        "|---|---|---|---|---|---|---|---|---|---|"@,
        ""@,
    ]);
}

proof fn lemma_to_logical_cpu_cores()
    ensures
        " |\n| Logical CPU cores | "@ == " |"@ + seq!['\n'] + "| Logical CPU cores | "@,
        free_of(" |"@, '\n'),
        free_of("| Logical CPU cores | "@, '\n'),
{
    reveal_strlit(" |\n| Logical CPU cores | ");
    reveal_strlit(" |");
    reveal_strlit("| Logical CPU cores | ");
    assert(" |\n| Logical CPU cores | "@ =~= " |"@ + seq!['\n'] + "| Logical CPU cores | "@);
}

proof fn lemma_to_total_ram()
    ensures
        " |\n| Total RAM | "@ == " |"@ + seq!['\n'] + "| Total RAM | "@,
        free_of(" |"@, '\n'),
        free_of("| Total RAM | "@, '\n'),
{
    reveal_strlit(" |\n| Total RAM | ");
    reveal_strlit(" |");
    reveal_strlit("| Total RAM | ");
    assert(" |\n| Total RAM | "@ =~= " |"@ + seq!['\n'] + "| Total RAM | "@);
}

proof fn lemma_to_container()
    ensures
        " GB |\n| Container | "@ == " GB |"@ + seq!['\n'] + "| Container | "@,
        free_of(" GB |"@, '\n'),
        free_of("| Container | "@, '\n'),
{
    reveal_strlit(" GB |\n| Container | ");
    reveal_strlit(" GB |");
    reveal_strlit("| Container | ");
    assert(" GB |\n| Container | "@ =~= " GB |"@ + seq!['\n'] + "| Container | "@);
}

proof fn lemma_to_end_plain()
    ensures
        " |\n"@ == " |"@ + seq!['\n'] + ""@,
        free_of(" |"@, '\n'),
        free_of(""@, '\n'),
{
    reveal_strlit(" |\n");
    reveal_strlit(" |");
    reveal_strlit("");
    assert(" |\n"@ =~= " |"@ + seq!['\n'] + ""@);
}

proof fn lemma_to_run_mode()
    ensures
        " |\n| Run mode | "@ == " |"@ + seq!['\n'] + "| Run mode | "@,
        free_of(" |"@, '\n'),
        free_of("| Run mode | "@, '\n'),
{
    reveal_strlit(" |\n| Run mode | ");
    reveal_strlit(" |");
    reveal_strlit("| Run mode | ");
    assert(" |\n| Run mode | "@ =~= " |"@ + seq!['\n'] + "| Run mode | "@);
}

proof fn lemma_to_gbps_target()
    ensures
        " |\n| GBPS target | "@ == " |"@ + seq!['\n'] + "| GBPS target | "@,
        free_of(" |"@, '\n'),
        free_of("| GBPS target | "@, '\n'),
{
    reveal_strlit(" |\n| GBPS target | ");
    reveal_strlit(" |");
    reveal_strlit("| GBPS target | ");
    assert(" |\n| GBPS target | "@ =~= " |"@ + seq!['\n'] + "| GBPS target | "@);
}

proof fn lemma_to_duration()
    ensures
        " |\n| Duration | "@ == " |"@ + seq!['\n'] + "| Duration | "@,
        free_of(" |"@, '\n'),
        free_of("| Duration | "@, '\n'),
{
    reveal_strlit(" |\n| Duration | ");
    reveal_strlit(" |");
    reveal_strlit("| Duration | ");
    assert(" |\n| Duration | "@ =~= " |"@ + seq!['\n'] + "| Duration | "@);
}

proof fn lemma_to_partitions()
    ensures
        "s |\n| Partitions | "@ == "s |"@ + seq!['\n'] + "| Partitions | "@,
        free_of("s |"@, '\n'),
        free_of("| Partitions | "@, '\n'),
{
    reveal_strlit("s |\n| Partitions | ");
    reveal_strlit("s |");
    reveal_strlit("| Partitions | ");
    assert("s |\n| Partitions | "@ =~= "s |"@ + seq!['\n'] + "| Partitions | "@);
}

proof fn lemma_to_producer_tasks()
    ensures
        " |\n| Producer tasks | "@ == " |"@ + seq!['\n'] + "| Producer tasks | "@,
        free_of(" |"@, '\n'),
        free_of("| Producer tasks | "@, '\n'),
{
    reveal_strlit(" |\n| Producer tasks | ");
    reveal_strlit(" |");
    reveal_strlit("| Producer tasks | ");
    assert(" |\n| Producer tasks | "@ =~= " |"@ + seq!['\n'] + "| Producer tasks | "@);
}

proof fn lemma_to_consumer_tasks()
    ensures
        " |\n| Consumer tasks | "@ == " |"@ + seq!['\n'] + "| Consumer tasks | "@,
        free_of(" |"@, '\n'),
        free_of("| Consumer tasks | "@, '\n'),
{
    reveal_strlit(" |\n| Consumer tasks | ");
    reveal_strlit(" |");
    reveal_strlit("| Consumer tasks | ");
    assert(" |\n| Consumer tasks | "@ =~= " |"@ + seq!['\n'] + "| Consumer tasks | "@);
}

proof fn lemma_to_payload_type()
    ensures
        " |\n| Payload type | "@ == " |"@ + seq!['\n'] + "| Payload type | "@,
        free_of(" |"@, '\n'),
        free_of("| Payload type | "@, '\n'),
{
    reveal_strlit(" |\n| Payload type | ");
    reveal_strlit(" |");
    reveal_strlit("| Payload type | ");
    assert(" |\n| Payload type | "@ =~= " |"@ + seq!['\n'] + "| Payload type | "@);
}

proof fn lemma_to_max_msg_rate()
    ensures
        " |\n| Max msg rate | "@ == " |"@ + seq!['\n'] + "| Max msg rate | "@,
        free_of(" |"@, '\n'),
        free_of("| Max msg rate | "@, '\n'),
{
    reveal_strlit(" |\n| Max msg rate | ");
    reveal_strlit(" |");
    reveal_strlit("| Max msg rate | ");
    assert(" |\n| Max msg rate | "@ =~= " |"@ + seq!['\n'] + "| Max msg rate | "@);
}

proof fn lemma_to_achieved_gbps()
    ensures
        " |\n| Achieved Gbps | **"@ == " |"@ + seq!['\n'] + "| Achieved Gbps | **"@,
        free_of(" |"@, '\n'),
        free_of("| Achieved Gbps | **"@, '\n'),
{
    reveal_strlit(" |\n| Achieved Gbps | **");
    reveal_strlit(" |");
    reveal_strlit("| Achieved Gbps | **");
    assert(" |\n| Achieved Gbps | **"@ =~= " |"@ + seq!['\n'] + "| Achieved Gbps | **"@);
}

proof fn lemma_to_efficiency()
    ensures
        "** |\n| Efficiency | **"@ == "** |"@ + seq!['\n'] + "| Efficiency | **"@,
        free_of("** |"@, '\n'),
        free_of("| Efficiency | **"@, '\n'),
{
    reveal_strlit("** |\n| Efficiency | **");
    reveal_strlit("** |");
    reveal_strlit("| Efficiency | **");
    assert("** |\n| Efficiency | **"@ =~= "** |"@ + seq!['\n'] + "| Efficiency | **"@);
}

proof fn lemma_to_messages_received()
    ensures
        "%** |\n| Messages received | "@ == "%** |"@ + seq!['\n'] + "| Messages received | "@,
        free_of("%** |"@, '\n'),
        free_of("| Messages received | "@, '\n'),
{
    reveal_strlit("%** |\n| Messages received | ");
    reveal_strlit("%** |");
    reveal_strlit("| Messages received | ");
    assert("%** |\n| Messages received | "@ =~= "%** |"@ + seq!['\n'] + "| Messages received | "@);
}

proof fn lemma_to_messages_lost()
    ensures
        " |\n| Messages lost | **"@ == " |"@ + seq!['\n'] + "| Messages lost | **"@,
        free_of(" |"@, '\n'),
        free_of("| Messages lost | **"@, '\n'),
{
    reveal_strlit(" |\n| Messages lost | **");
    reveal_strlit(" |");
    reveal_strlit("| Messages lost | **");
    assert(" |\n| Messages lost | **"@ =~= " |"@ + seq!['\n'] + "| Messages lost | **"@);
}

proof fn lemma_to_end_bold()
    ensures
        "** |\n"@ == "** |"@ + seq!['\n'] + ""@,
        free_of("** |"@, '\n'),
        free_of(""@, '\n'),
{
    reveal_strlit("** |\n");
    reveal_strlit("** |");
    reveal_strlit("");
    assert("** |\n"@ =~= "** |"@ + seq!['\n'] + ""@);
}

proof fn lemma_rate_end()
    ensures
        " msg/s/stream |\n| Compression | LZ4 |\n| Run ID | "@ == " msg/s/stream |"@ + seq!['\n']
            + "| Compression | LZ4 |"@ + seq!['\n'] + "| Run ID | "@,
        free_of(" msg/s/stream |"@, '\n'),
        free_of("| Compression | LZ4 |"@, '\n'),
        free_of("| Run ID | "@, '\n'),
{
    reveal_strlit(" msg/s/stream |\n| Compression | LZ4 |\n| Run ID | ");
    reveal_strlit(" msg/s/stream |");
    reveal_strlit("| Compression | LZ4 |");
    reveal_strlit("| Run ID | ");
    assert(" msg/s/stream |\n| Compression | LZ4 |\n| Run ID | "@ =~= " msg/s/stream |"@
        + seq!['\n'] + "| Compression | LZ4 |"@ + seq!['\n'] + "| Run ID | "@);
}

proof fn lemma_two_lines(
    s: Seq<char>,
    done: Seq<Seq<char>>,
    line: Seq<char>,
    value: Seq<char>,
    end: Seq<char>,
    middle: Seq<char>,
    next: Seq<char>,
)
    requires
        split(s, '\n') == done.push(line),
        free_of(value, '\n'),
        free_of(end, '\n'),
        free_of(middle, '\n'),
        free_of(next, '\n'),
    ensures
        split(s + value + (end + seq!['\n'] + middle + seq!['\n'] + next), '\n') == done.push(
            line + value + end,
        ).push(middle).push(next),
{
    let none = Seq::<char>::empty();
    lemma_next_piece(s, done, line, value, end, middle, '\n');
    let half = s + value + (end + seq!['\n'] + middle);
    lemma_next_piece(half, done.push(line + value + end), middle, none, none, next, '\n');
    assert(half + none + (none + seq!['\n'] + next) =~= s + value + (end + seq!['\n'] + middle
        + seq!['\n'] + next));
    assert(middle + none + none =~= middle);
}

/// Whether the machine is a container, in words.
pub open spec fn container_word(hw: Hardware) -> Seq<char> {
    if hw.in_container {
        "yes (Docker)"@
    } else {
        "no"@
    }
}

proof fn lemma_titles_in_a_line(b: BrokerType, m: RunMode, p: PayloadType)
    ensures
        free_of(broker_title(b), '\n'),
        free_of(" @ "@, '\n'),
        free_of(run_mode_name(m), '\n'),
        free_of(payload_title(p), '\n'),
{
    reveal_strlit("Redpanda");
    reveal_strlit("Kafka");
    reveal_strlit("Nats");
    reveal_strlit("Grpc");
    reveal_strlit(" @ ");
    reveal_strlit("combined");
    reveal_strlit("24b");
    reveal_strlit("256b");
    reveal_strlit("4kb");
    reveal_strlit("64kb");
    reveal_strlit("512kb");
    reveal_strlit("4mb");
    reveal_strlit("16mb");
    reveal_strlit("80mb");
    reveal_strlit("float32 correlated (LZ4-compressible)");
    reveal_strlit("random bytes (entropy baseline)");
}

proof fn lemma_hardware_lines(hw: Hardware)
    requires
        free_of(hw.os@, '\n'),
    ensures
        split(hardware_text(hw), '\n') == seq![
            "# Broker Benchmark Report"@,
            ""@,
            "## Hardware"@,
            "| Property | Value |"@,
            "|---|---|"@,
            "| OS | "@ + hw.os@ + " |"@,
            "| Logical CPU cores | "@ + decimal(hw.cpu_count as nat) + " |"@,
            "| Total RAM | "@ + decimal((hw.total_ram_bytes / 1_073_741_824) as nat) + " GB |"@,
            "| Container | "@ + container_word(hw) + " |"@,
            ""@,
        ],
{
    lemma_decimal_in_a_line(hw.cpu_count as nat);
    lemma_decimal_in_a_line((hw.total_ram_bytes / 1_073_741_824) as nat);
    reveal_strlit("yes (Docker)");
    reveal_strlit("no");
    lemma_hardware_head();
    let t0 = "# Broker Benchmark Report\n\n## Hardware\n| Property | Value |\n|---|---|\n| OS | "@;
    let d0 = seq![
        "# Broker Benchmark Report"@,
        ""@,
        "## Hardware"@,
        "| Property | Value |"@,
        "|---|---|"@,
    ];
    assert(split(t0, '\n') =~= d0.push("| OS | "@));
    lemma_to_logical_cpu_cores();
    let v0 = hw.os@;
    lemma_next_piece(t0, d0, "| OS | "@, v0, " |"@, "| Logical CPU cores | "@, '\n');
    let t1 = t0 + v0 + " |\n| Logical CPU cores | "@;
    let d1 = d0.push("| OS | "@ + v0 + " |"@);
    lemma_to_total_ram();
    let v1 = decimal(hw.cpu_count as nat);
    lemma_next_piece(t1, d1, "| Logical CPU cores | "@, v1, " |"@, "| Total RAM | "@, '\n');
    let t2 = t1 + v1 + " |\n| Total RAM | "@;
    let d2 = d1.push("| Logical CPU cores | "@ + v1 + " |"@);
    lemma_to_container();
    let v2 = decimal((hw.total_ram_bytes / 1_073_741_824) as nat);
    lemma_next_piece(t2, d2, "| Total RAM | "@, v2, " GB |"@, "| Container | "@, '\n');
    let t3 = t2 + v2 + " GB |\n| Container | "@;
    let d3 = d2.push("| Total RAM | "@ + v2 + " GB |"@);
    lemma_to_end_plain();
    let v3 = container_word(hw);
    lemma_next_piece(t3, d3, "| Container | "@, v3, " |"@, ""@, '\n');
    let t4 = t3 + v3 + " |\n"@;
    let d4 = d3.push("| Container | "@ + v3 + " |"@);
    assert(hardware_text(hw) =~= t4);
    assert(split(t4, '\n') == d4.push(""@));
    assert(d4.push(""@) =~= seq![
        "# Broker Benchmark Report"@,
        ""@,
        "## Hardware"@,
        "| Property | Value |"@,
        "|---|---|"@,
        "| OS | "@ + hw.os@ + " |"@,
        "| Logical CPU cores | "@ + decimal(hw.cpu_count as nat) + " |"@,
        "| Total RAM | "@ + decimal((hw.total_ram_bytes / 1_073_741_824) as nat) + " GB |"@,
        "| Container | "@ + container_word(hw) + " |"@,
        ""@,
    ]);
}

#[verifier::rlimit(40)]
proof fn lemma_setup_lines(c: Config, gbps_target: Seq<char>)
    requires
        free_of(c.broker_endpoint@, '\n'),
        free_of(gbps_target, '\n'),
        free_of(c.run_id@, '\n'),
    ensures
        split(setup_text(c, gbps_target), '\n') == seq![
            ""@,
            "## Test Setup"@,
            "| Parameter | Value |"@,
            "|---|---|"@,
            "| Broker | "@ + (broker_title(c.broker_type) + " @ "@ + c.broker_endpoint@) + " |"@,
            "| Run mode | "@ + run_mode_name(c.run_mode) + " |"@,
            "| GBPS target | "@ + gbps_target + " |"@,
            "| Duration | "@ + decimal(c.run_duration_secs as nat) + "s |"@,
            "| Partitions | "@ + decimal(c.num_partitions as nat) + " |"@,
            "| Producer tasks | "@ + decimal(c.num_producer_tasks as nat) + " |"@,
            "| Consumer tasks | "@ + decimal(c.num_consumer_tasks as nat) + " |"@,
            "| Payload type | "@ + payload_title(c.payload_type) + " |"@,
            "| Max msg rate | "@ + decimal(c.max_msg_rate as nat) + " msg/s/stream |"@,
            "| Compression | LZ4 |"@,
            "| Run ID | "@ + c.run_id@ + " |"@,
            ""@,
        ],
{
    lemma_titles_in_a_line(c.broker_type, c.run_mode, c.payload_type);
    lemma_decimal_in_a_line(c.run_duration_secs as nat);
    lemma_decimal_in_a_line(c.num_partitions as nat);
    lemma_decimal_in_a_line(c.num_producer_tasks as nat);
    lemma_decimal_in_a_line(c.num_consumer_tasks as nat);
    lemma_decimal_in_a_line(c.max_msg_rate as nat);
    let broker = broker_title(c.broker_type) + " @ "@ + c.broker_endpoint@;
    assert(free_of(broker, '\n'));
    let head = "\n## Test Setup\n| Parameter | Value |\n|---|---|\n| Broker | "@;
    assert(head + broker_title(c.broker_type) + " @ "@ + c.broker_endpoint@ =~= head + broker);
    lemma_setup_head();
    let t0 = "\n## Test Setup\n| Parameter | Value |\n|---|---|\n| Broker | "@;
    let d0 = seq![""@, "## Test Setup"@, "| Parameter | Value |"@, "|---|---|"@];
    assert(split(t0, '\n') =~= d0.push("| Broker | "@));
    lemma_to_run_mode();
    let v0 = (broker_title(c.broker_type) + " @ "@ + c.broker_endpoint@);
    lemma_next_piece(t0, d0, "| Broker | "@, v0, " |"@, "| Run mode | "@, '\n');
    let t1 = t0 + v0 + " |\n| Run mode | "@;
    let d1 = d0.push("| Broker | "@ + v0 + " |"@);
    lemma_to_gbps_target();
    let v1 = run_mode_name(c.run_mode);
    lemma_next_piece(t1, d1, "| Run mode | "@, v1, " |"@, "| GBPS target | "@, '\n');
    let t2 = t1 + v1 + " |\n| GBPS target | "@;
    let d2 = d1.push("| Run mode | "@ + v1 + " |"@);
    lemma_to_duration();
    let v2 = gbps_target;
    lemma_next_piece(t2, d2, "| GBPS target | "@, v2, " |"@, "| Duration | "@, '\n');
    let t3 = t2 + v2 + " |\n| Duration | "@;
    let d3 = d2.push("| GBPS target | "@ + v2 + " |"@);
    lemma_to_partitions();
    let v3 = decimal(c.run_duration_secs as nat);
    lemma_next_piece(t3, d3, "| Duration | "@, v3, "s |"@, "| Partitions | "@, '\n');
    let t4 = t3 + v3 + "s |\n| Partitions | "@;
    let d4 = d3.push("| Duration | "@ + v3 + "s |"@);
    lemma_to_producer_tasks();
    let v4 = decimal(c.num_partitions as nat);
    lemma_next_piece(t4, d4, "| Partitions | "@, v4, " |"@, "| Producer tasks | "@, '\n');
    let t5 = t4 + v4 + " |\n| Producer tasks | "@;
    let d5 = d4.push("| Partitions | "@ + v4 + " |"@);
    lemma_to_consumer_tasks();
    let v5 = decimal(c.num_producer_tasks as nat);
    lemma_next_piece(t5, d5, "| Producer tasks | "@, v5, " |"@, "| Consumer tasks | "@, '\n');
    let t6 = t5 + v5 + " |\n| Consumer tasks | "@;
    let d6 = d5.push("| Producer tasks | "@ + v5 + " |"@);
    lemma_to_payload_type();
    let v6 = decimal(c.num_consumer_tasks as nat);
    lemma_next_piece(t6, d6, "| Consumer tasks | "@, v6, " |"@, "| Payload type | "@, '\n');
    let t7 = t6 + v6 + " |\n| Payload type | "@;
    let d7 = d6.push("| Consumer tasks | "@ + v6 + " |"@);
    lemma_to_max_msg_rate();
    let v7 = payload_title(c.payload_type);
    lemma_next_piece(t7, d7, "| Payload type | "@, v7, " |"@, "| Max msg rate | "@, '\n');
    let t8 = t7 + v7 + " |\n| Max msg rate | "@;
    let d8 = d7.push("| Payload type | "@ + v7 + " |"@);
    lemma_rate_end();
    let v8 = decimal(c.max_msg_rate as nat);
    let t10 = t8 + v8 + " msg/s/stream |\n| Compression | LZ4 |\n| Run ID | "@;
    lemma_two_lines(
        t8,
        d8,
        "| Max msg rate | "@,
        v8,
        " msg/s/stream |"@,
        "| Compression | LZ4 |"@,
        "| Run ID | "@,
    );
    let d10 = d8.push("| Max msg rate | "@ + v8 + " msg/s/stream |"@).push(
        "| Compression | LZ4 |"@,
    );
    lemma_to_end_plain();
    let v10 = c.run_id@;
    lemma_next_piece(t10, d10, "| Run ID | "@, v10, " |"@, ""@, '\n');
    let t11 = t10 + v10 + " |\n"@;
    let d11 = d10.push("| Run ID | "@ + v10 + " |"@);
    assert(setup_text(c, gbps_target) == t11);
    assert(split(t11, '\n') == d11.push(""@));
    assert(d11.push(""@) =~= seq![
        ""@,
        "## Test Setup"@,
        "| Parameter | Value |"@,
        "|---|---|"@,
        "| Broker | "@ + (broker_title(c.broker_type) + " @ "@ + c.broker_endpoint@) + " |"@,
        "| Run mode | "@ + run_mode_name(c.run_mode) + " |"@,
        "| GBPS target | "@ + gbps_target + " |"@,
        "| Duration | "@ + decimal(c.run_duration_secs as nat) + "s |"@,
        "| Partitions | "@ + decimal(c.num_partitions as nat) + " |"@,
        "| Producer tasks | "@ + decimal(c.num_producer_tasks as nat) + " |"@,
        "| Consumer tasks | "@ + decimal(c.num_consumer_tasks as nat) + " |"@,
        "| Payload type | "@ + payload_title(c.payload_type) + " |"@,
        "| Max msg rate | "@ + decimal(c.max_msg_rate as nat) + " msg/s/stream |"@,
        "| Compression | LZ4 |"@,
        "| Run ID | "@ + c.run_id@ + " |"@,
        ""@,
    ]);
}

proof fn lemma_summary_lines(
    gbps_target: Seq<char>,
    achieved: Seq<char>,
    efficiency: u64,
    rows: Seq<ReportRow>,
)
    requires
        free_of(gbps_target, '\n'),
        free_of(achieved, '\n'),
    ensures
        split(summary_text(gbps_target, achieved, efficiency, rows), '\n') == seq![
            ""@,
            "## Summary"@,
            "| Metric | Value |"@,
            "|---|---|"@,
            "| Target Gbps | "@ + gbps_target + " |"@,
            "| Achieved Gbps | **"@ + achieved + "** |"@,
            "| Efficiency | **"@ + decimal(efficiency as nat) + "%** |"@,
            "| Messages received | "@ + decimal(messages_of(rows)) + " |"@,
            "| Messages lost | **"@ + decimal(losses_of(rows)) + "** |"@,
            ""@,
        ],
{
    lemma_decimal_in_a_line(efficiency as nat);
    lemma_decimal_in_a_line(messages_of(rows));
    lemma_decimal_in_a_line(losses_of(rows));
    lemma_summary_head();
    let t0 = "\n## Summary\n| Metric | Value |\n|---|---|\n| Target Gbps | "@;
    let d0 = seq![""@, "## Summary"@, "| Metric | Value |"@, "|---|---|"@];
    assert(split(t0, '\n') =~= d0.push("| Target Gbps | "@));
    lemma_to_achieved_gbps();
    let v0 = gbps_target;
    lemma_next_piece(t0, d0, "| Target Gbps | "@, v0, " |"@, "| Achieved Gbps | **"@, '\n');
    let t1 = t0 + v0 + " |\n| Achieved Gbps | **"@;
    let d1 = d0.push("| Target Gbps | "@ + v0 + " |"@);
    lemma_to_efficiency();
    let v1 = achieved;
    lemma_next_piece(t1, d1, "| Achieved Gbps | **"@, v1, "** |"@, "| Efficiency | **"@, '\n');
    let t2 = t1 + v1 + "** |\n| Efficiency | **"@;
    let d2 = d1.push("| Achieved Gbps | **"@ + v1 + "** |"@);
    lemma_to_messages_received();
    let v2 = decimal(efficiency as nat);
    lemma_next_piece(t2, d2, "| Efficiency | **"@, v2, "%** |"@, "| Messages received | "@, '\n');
    let t3 = t2 + v2 + "%** |\n| Messages received | "@;
    let d3 = d2.push("| Efficiency | **"@ + v2 + "%** |"@);
    lemma_to_messages_lost();
    let v3 = decimal(messages_of(rows));
    lemma_next_piece(t3, d3, "| Messages received | "@, v3, " |"@, "| Messages lost | **"@, '\n');
    let t4 = t3 + v3 + " |\n| Messages lost | **"@;
    let d4 = d3.push("| Messages received | "@ + v3 + " |"@);
    lemma_to_end_bold();
    let v4 = decimal(losses_of(rows));
    lemma_next_piece(t4, d4, "| Messages lost | **"@, v4, "** |"@, ""@, '\n');
    let t5 = t4 + v4 + "** |\n"@;
    let d5 = d4.push("| Messages lost | **"@ + v4 + "** |"@);
    assert(summary_text(gbps_target, achieved, efficiency, rows) =~= t5);
    assert(split(t5, '\n') == d5.push(""@));
    assert(d5.push(""@) =~= seq![
        ""@,
        "## Summary"@,
        "| Metric | Value |"@,
        "|---|---|"@,
        "| Target Gbps | "@ + gbps_target + " |"@,
        "| Achieved Gbps | **"@ + achieved + "** |"@,
        "| Efficiency | **"@ + decimal(efficiency as nat) + "%** |"@,
        "| Messages received | "@ + decimal(messages_of(rows)) + " |"@,
        "| Messages lost | **"@ + decimal(losses_of(rows)) + "** |"@,
        ""@,
    ]);
}

/// Whether the texts of a row can stand in a line of a table: they hold neither bars nor line ends.
pub open spec fn fits_a_row(row: ReportRow) -> bool {
    &&& free_of(row.size_label@, '\n') && free_of(row.size_label@, '|')
    &&& free_of(row.target_gbps@, '\n') && free_of(row.target_gbps@, '|')
    &&& free_of(row.achieved_gbps@, '\n') && free_of(row.achieved_gbps@, '|')
    &&& free_of(row.p50_ms@, '\n') && free_of(row.p50_ms@, '|')
    &&& free_of(row.p95_ms@, '\n') && free_of(row.p95_ms@, '|')
    &&& free_of(row.p99_ms@, '\n') && free_of(row.p99_ms@, '|')
    &&& free_of(row.max_ms@, '\n') && free_of(row.max_ms@, '|')
}

/// A line on a stream, without the line end.
pub open spec fn row_line(row: ReportRow) -> Seq<char> {
    "| "@ + row.size_label@ + " | "@ + row.target_gbps@ + " | "@ + row.achieved_gbps@ + " | "@
        + decimal(row.efficiency as nat) + "% | "@ + decimal(row.messages_received as nat) + " | "@
        + decimal(row.messages_lost as nat) + " | "@ + row.p50_ms@ + " | "@ + row.p95_ms@ + " | "@
        + row.p99_ms@ + " | "@ + row.max_ms@ + " |"@
}

proof fn lemma_bars()
    ensures
        "| "@ == ""@ + seq!['|'] + " "@,
        " | "@ == " "@ + seq!['|'] + " "@,
        "% | "@ == "% "@ + seq!['|'] + " "@,
        " |"@ == " "@ + seq!['|'] + ""@,
        " |\n"@ == " |"@ + seq!['\n'],
        free_of(""@, '|') && free_of(" "@, '|') && free_of("% "@, '|'),
        free_of("| "@, '\n') && free_of(" | "@, '\n') && free_of("% | "@, '\n') && free_of(
            " |"@,
            '\n',
        ),
{
    reveal_strlit("| ");
    reveal_strlit(" | ");
    reveal_strlit("% | ");
    reveal_strlit(" |");
    reveal_strlit(" |\n");
    reveal_strlit("");
    reveal_strlit(" ");
    reveal_strlit("% ");
    assert("| "@ =~= ""@ + seq!['|'] + " "@);
    assert(" | "@ =~= " "@ + seq!['|'] + " "@);
    assert("% | "@ =~= "% "@ + seq!['|'] + " "@);
    assert(" |"@ =~= " "@ + seq!['|'] + ""@);
    assert(" |\n"@ =~= " |"@ + seq!['\n']);
}

/// The cells of a line on a stream, in the order of the columns: label, target, throughput,
/// efficiency, messages, losses, and the latencies at 50, 95 and 99 percent and at the most.
#[verifier::rlimit(40)]
pub proof fn law_cells_of_a_row(row: ReportRow)
    requires
        fits_a_row(row),
    ensures
        split(row_line(row), '|') == seq![
            ""@,
            " "@ + row.size_label@ + " "@,
            " "@ + row.target_gbps@ + " "@,
            " "@ + row.achieved_gbps@ + " "@,
            " "@ + decimal(row.efficiency as nat) + "% "@,
            " "@ + decimal(row.messages_received as nat) + " "@,
            " "@ + decimal(row.messages_lost as nat) + " "@,
            " "@ + row.p50_ms@ + " "@,
            " "@ + row.p95_ms@ + " "@,
            " "@ + row.p99_ms@ + " "@,
            " "@ + row.max_ms@ + " "@,
            ""@,
        ],
{
    lemma_bars();
    lemma_decimal_in_a_line(row.efficiency as nat);
    lemma_decimal_in_a_line(row.messages_received as nat);
    lemma_decimal_in_a_line(row.messages_lost as nat);
    let t0 = "| "@;
    let d0 = seq![""@];
    lemma_split_piece(""@, '|');
    lemma_split_piece(" "@, '|');
    lemma_split_joined(""@, " "@, '|');
    assert(split(t0, '|') =~= d0.push(" "@));
    let v0 = row.size_label@;
    lemma_next_piece(t0, d0, " "@, v0, " "@, " "@, '|');
    let t1 = t0 + v0 + " | "@;
    let d1 = d0.push(" "@ + v0 + " "@);
    let v1 = row.target_gbps@;
    lemma_next_piece(t1, d1, " "@, v1, " "@, " "@, '|');
    let t2 = t1 + v1 + " | "@;
    let d2 = d1.push(" "@ + v1 + " "@);
    let v2 = row.achieved_gbps@;
    lemma_next_piece(t2, d2, " "@, v2, " "@, " "@, '|');
    let t3 = t2 + v2 + " | "@;
    let d3 = d2.push(" "@ + v2 + " "@);
    let v3 = decimal(row.efficiency as nat);
    lemma_next_piece(t3, d3, " "@, v3, "% "@, " "@, '|');
    let t4 = t3 + v3 + "% | "@;
    let d4 = d3.push(" "@ + v3 + "% "@);
    let v4 = decimal(row.messages_received as nat);
    lemma_next_piece(t4, d4, " "@, v4, " "@, " "@, '|');
    let t5 = t4 + v4 + " | "@;
    let d5 = d4.push(" "@ + v4 + " "@);
    let v5 = decimal(row.messages_lost as nat);
    lemma_next_piece(t5, d5, " "@, v5, " "@, " "@, '|');
    let t6 = t5 + v5 + " | "@;
    let d6 = d5.push(" "@ + v5 + " "@);
    let v6 = row.p50_ms@;
    lemma_next_piece(t6, d6, " "@, v6, " "@, " "@, '|');
    let t7 = t6 + v6 + " | "@;
    let d7 = d6.push(" "@ + v6 + " "@);
    let v7 = row.p95_ms@;
    lemma_next_piece(t7, d7, " "@, v7, " "@, " "@, '|');
    let t8 = t7 + v7 + " | "@;
    let d8 = d7.push(" "@ + v7 + " "@);
    let v8 = row.p99_ms@;
    lemma_next_piece(t8, d8, " "@, v8, " "@, " "@, '|');
    let t9 = t8 + v8 + " | "@;
    let d9 = d8.push(" "@ + v8 + " "@);
    let v9 = row.max_ms@;
    lemma_next_piece(t9, d9, " "@, v9, " "@, ""@, '|');
    let t10 = t9 + v9 + " |"@;
    let d10 = d9.push(" "@ + v9 + " "@);
    assert(row_line(row) == t10);
    assert(d10.push(""@) =~= seq![
        ""@,
        " "@ + row.size_label@ + " "@,
        " "@ + row.target_gbps@ + " "@,
        " "@ + row.achieved_gbps@ + " "@,
        " "@ + decimal(row.efficiency as nat) + "% "@,
        " "@ + decimal(row.messages_received as nat) + " "@,
        " "@ + decimal(row.messages_lost as nat) + " "@,
        " "@ + row.p50_ms@ + " "@,
        " "@ + row.p95_ms@ + " "@,
        " "@ + row.p99_ms@ + " "@,
        " "@ + row.max_ms@ + " "@,
        ""@,
    ]);
}

proof fn lemma_row_line(row: ReportRow)
    requires
        fits_a_row(row),
    ensures
        row_text(row) == row_line(row) + seq!['\n'],
        free_of(row_line(row), '\n'),
{
    lemma_bars();
    lemma_decimal_in_a_line(row.efficiency as nat);
    lemma_decimal_in_a_line(row.messages_received as nat);
    lemma_decimal_in_a_line(row.messages_lost as nat);
    let start = "| "@ + row.size_label@ + " | "@ + row.target_gbps@ + " | "@ + row.achieved_gbps@
        + " | "@ + decimal(row.efficiency as nat) + "% | "@ + decimal(
        row.messages_received as nat,
    ) + " | "@ + decimal(row.messages_lost as nat) + " | "@ + row.p50_ms@ + " | "@ + row.p95_ms@
        + " | "@ + row.p99_ms@ + " | "@ + row.max_ms@;
    let end = " |"@;
    assert(start + (end + seq!['\n']) =~= (start + end) + seq!['\n']);
}

proof fn lemma_row_lines(rows: Seq<ReportRow>)
    requires
        forall|i: int| 0 <= i < rows.len() ==> fits_a_row(#[trigger] rows[i]),
    ensures
        split(rows_text(rows), '\n') == Seq::new(rows.len(), |i: int| row_line(rows[i])).push(
            Seq::<char>::empty(),
        ),
    decreases rows.len(),
{
    let empty = Seq::<char>::empty();
    let lines = Seq::new(rows.len(), |i: int| row_line(rows[i]));
    if rows.len() == 0 {
        lemma_split_piece(empty, '\n');
        assert(split(rows_text(rows), '\n') =~= lines.push(empty));
    } else {
        let before = rows.drop_last();
        let last = rows[rows.len() - 1];
        assert(forall|i: int| 0 <= i < before.len() ==> before[i] == rows[i]);
        lemma_row_lines(before);
        let done = Seq::new(before.len(), |i: int| row_line(before[i]));
        lemma_row_line(last);
        lemma_next_piece(rows_text(before), done, empty, row_line(last), empty, empty, '\n');
        assert(rows_text(before) + row_line(last) + (empty + seq!['\n'] + empty) =~= rows_text(
            rows,
        ));
        assert(empty + row_line(last) + empty =~= row_line(last));
        assert(done.push(row_line(last)) =~= lines);
    }
}

/// The lines of two texts, the first of which ends with a line end.
proof fn lemma_sections(a: Seq<char>, x: Seq<Seq<char>>, b: Seq<char>, y: Seq<Seq<char>>)
    requires
        split(a, '\n') == x.push(Seq::<char>::empty()),
        split(b, '\n') == y,
    ensures
        split(a + b, '\n') == x + y,
{
    let empty = Seq::<char>::empty();
    lemma_split_concat(a, b, '\n');
    assert(x.push(empty).drop_last() =~= x);
    assert(empty + y[0] =~= y[0]);
    assert(x + seq![y[0]] + y.skip(1) =~= x + y);
}

/// What stands in which line of the report: the machine, the settings of the run, one line for each
/// stream, and the run as a whole. Each setting stands in the line of its own name. The texts that
/// are put in hold no line ends.
#[verifier::rlimit(60)]
pub proof fn law_lines_of_the_report(
    c: Config,
    hw: Hardware,
    gbps_target: Seq<char>,
    achieved: Seq<char>,
    efficiency: u64,
    rows: Seq<ReportRow>,
    i: int,
)
    requires
        free_of(hw.os@, '\n'),
        free_of(c.broker_endpoint@, '\n'),
        free_of(c.run_id@, '\n'),
        free_of(gbps_target, '\n'),
        free_of(achieved, '\n'),
        forall|k: int| 0 <= k < rows.len() ==> fits_a_row(#[trigger] rows[k]),
    ensures
        ({
            let lines = split(
                report_text(c, hw, gbps_target, achieved, efficiency, rows),
                '\n',
            );
            let n = 28 + rows.len() as int;
            &&& lines.len() == n + 10
            &&& lines[0] == "# Broker Benchmark Report"@
            &&& lines[2] == "## Hardware"@
            &&& lines[5] == "| OS | "@ + hw.os@ + " |"@
            &&& lines[6] == "| Logical CPU cores | "@ + decimal(hw.cpu_count as nat) + " |"@
            &&& lines[7] == "| Total RAM | "@ + decimal(
                (hw.total_ram_bytes / 1_073_741_824) as nat,
            ) + " GB |"@
            &&& hw.in_container ==> lines[8] == "| Container | "@ + "yes (Docker)"@ + " |"@
            &&& !hw.in_container ==> lines[8] == "| Container | "@ + "no"@ + " |"@
            &&& lines[10] == "## Test Setup"@
            &&& lines[13] == "| Broker | "@ + (broker_title(c.broker_type) + " @ "@
                + c.broker_endpoint@) + " |"@
            &&& lines[14] == "| Run mode | "@ + run_mode_name(c.run_mode) + " |"@
            &&& lines[15] == "| GBPS target | "@ + gbps_target + " |"@
            &&& lines[16] == "| Duration | "@ + decimal(c.run_duration_secs as nat) + "s |"@
            &&& lines[17] == "| Partitions | "@ + decimal(c.num_partitions as nat) + " |"@
            &&& lines[18] == "| Producer tasks | "@ + decimal(c.num_producer_tasks as nat) + " |"@
            &&& lines[19] == "| Consumer tasks | "@ + decimal(c.num_consumer_tasks as nat) + " |"@
            &&& lines[20] == "| Payload type | "@ + payload_title(c.payload_type) + " |"@
            &&& lines[21] == "| Max msg rate | "@ + decimal(c.max_msg_rate as nat)
                + " msg/s/stream |"@
            &&& lines[22] == "| Compression | LZ4 |"@
            &&& lines[23] == "| Run ID | "@ + c.run_id@ + " |"@
            &&& lines[25] == "## Results"@
            &&& 0 <= i < rows.len() ==> lines[28 + i] == row_line(rows[i])
            &&& lines[n + 1] == "## Summary"@
            &&& lines[n + 4] == "| Target Gbps | "@ + gbps_target + " |"@
            &&& lines[n + 5] == "| Achieved Gbps | **"@ + achieved + "** |"@
            &&& lines[n + 6] == "| Efficiency | **"@ + decimal(efficiency as nat) + "%** |"@
            &&& lines[n + 7] == "| Messages received | "@ + decimal(messages_of(rows)) + " |"@
            &&& lines[n + 8] == "| Messages lost | **"@ + decimal(losses_of(rows)) + "** |"@
        }),
{
    let empty = Seq::<char>::empty();
    assert(""@ =~= empty) by {
        reveal_strlit("");
    }
    lemma_hardware_lines(hw);
    lemma_setup_lines(c, gbps_target);
    lemma_results_head();
    lemma_row_lines(rows);
    lemma_summary_lines(gbps_target, achieved, efficiency, rows);
    let (ta, tb, tc, td, te) = (
        hardware_text(hw),
        setup_text(c, gbps_target),
        results_heading(),
        rows_text(rows),
        summary_text(gbps_target, achieved, efficiency, rows),
    );
    let (a, b, r, d) = (
        split(ta, '\n').drop_last(),
        split(tb, '\n').drop_last(),
        split(tc, '\n').drop_last(),
        split(td, '\n').drop_last(),
    );
    assert(split(ta, '\n') =~= a.push(empty));
    assert(split(tb, '\n') =~= b.push(empty));
    assert(split(tc, '\n') =~= r.push(empty));
    assert(split(td, '\n') =~= d.push(empty));
    lemma_sections(ta, a, tb, b.push(empty));
    assert(a + b.push(empty) =~= (a + b).push(empty));
    lemma_sections(ta + tb, a + b, tc, r.push(empty));
    assert((a + b) + r.push(empty) =~= (a + b + r).push(empty));
    lemma_sections(ta + tb + tc, a + b + r, td, d.push(empty));
    assert((a + b + r) + d.push(empty) =~= (a + b + r + d).push(empty));
    lemma_sections(ta + tb + tc + td, a + b + r + d, te, split(te, '\n'));
}

/// The totals of a report are the sums over its lines: nothing is counted twice and nothing is left
/// out.
pub proof fn law_totals_add_up(a: Seq<ReportRow>, b: Seq<ReportRow>, row: ReportRow)
    ensures
        messages_of(Seq::empty()) == 0 && losses_of(Seq::empty()) == 0,
        messages_of(seq![row]) == row.messages_received,
        losses_of(seq![row]) == row.messages_lost,
        messages_of(a + b) == messages_of(a) + messages_of(b),
        losses_of(a + b) == losses_of(a) + losses_of(b),
    decreases b.len(),
{
    assert(seq![row].drop_last() =~= Seq::empty());
    assert(messages_of(seq![row].drop_last()) == 0 && losses_of(seq![row].drop_last()) == 0);
    if b.len() == 0 {
        assert(a + b =~= a);
    } else {
        law_totals_add_up(a, b.drop_last(), row);
        assert((a + b).drop_last() =~= a + b.drop_last());
    }
}

/// A broker goes by its own name in the report, with a capital letter in front.
pub proof fn law_brokers_go_by_their_names(b: BrokerType)
    ensures
        ascii_lowercased(broker_title(b)) == broker_name(b),
        'A' <= broker_title(b)[0] <= 'Z',
        forall|i: int|
            1 <= i < broker_title(b).len() ==> #[trigger] broker_title(b)[i] == broker_name(b)[i],
{
    reveal_strlit("Redpanda");
    reveal_strlit("Kafka");
    reveal_strlit("Nats");
    reveal_strlit("Grpc");
    reveal_strlit("redpanda");
    reveal_strlit("kafka");
    reveal_strlit("nats");
    reveal_strlit("grpc");
    assert(ascii_lowercased(broker_title(b)) =~= broker_name(b));
}

/// A stream is held to a quarter of the target in the combined mode, and to all of it in every
/// other; and memory is reported in whole gibibytes, rounded down.
pub proof fn law_targets_and_memory(m: RunMode, hw: Hardware)
    ensures
        m == RunMode::Combined ==> 4 * stream_target_percent(m) == 100,
        m != RunMode::Combined ==> stream_target_percent(m) == 100,
        (hw.total_ram_bytes / 1_073_741_824) * 1_073_741_824 <= hw.total_ram_bytes < (
        hw.total_ram_bytes / 1_073_741_824 + 1) * 1_073_741_824,
{
}

/// The report stands in the output directory. Its name is `report` and the run id with the ending
/// `.md`, joined by an underscore.
pub proof fn law_parts_of_the_report_path(c: Config)
    ensures
        ({
            let path = report_path_text(c);
            let n = c.output_dir@.len() as int;
            &&& path.take(n) == c.output_dir@
            &&& path[n] == '/'
            &&& split(path.skip(n + 1), '_') == seq!["report"@] + split(c.run_id@ + ".md"@, '_')
        }),
{
    let path = report_path_text(c);
    let n = c.output_dir@.len() as int;
    reveal_strlit("/report_");
    reveal_strlit("report");
    assert(path.take(n) =~= c.output_dir@);
    assert(path.skip(n + 1) =~= "report"@ + seq!['_'] + (c.run_id@ + ".md"@));
    lemma_split_joined("report"@, c.run_id@ + ".md"@, '_');
    lemma_split_piece("report"@, '_');
}

} // verus!
