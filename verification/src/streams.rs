//! The streams of a run: message sizes, topics, stream ids, partitions.
use crate::allocation::{
    byte_cap, capped_demand, demand, law_settled_choice_is_unique, lemma_shares, settled, uncapped,
    water_fill_rates, water_filled, Allocation,
};
use crate::config::{lemma_run_mode_names, run_mode_name, RunMode};
use crate::message::HEADER_LEN;
use crate::ratio::Ratio;
use crate::target::{is_target, MAX_TARGET};
use crate::text::{
    decimal, digits_value, law_decimal_reads_back, lemma_decimal_digits, parsed_number,
    push_decimal,
};
use vstd::prelude::*;
use vstd::string::StringExecFns;

verus! {

/// The largest message of any stream, in bytes.
pub const MAX_MESSAGE_SIZE: u64 = 83_886_080;

/// The largest message that a broker has to let through, in bytes.
pub const MESSAGE_LIMIT: u32 = 104_857_600;

/// The number of message sizes.
pub const SIZE_COUNT: usize = 8;

/// A stream of messages of one size, with its part of the bandwidth.
#[derive(Debug, Clone, Copy)]
pub struct ActiveStream {
    pub bytes: u64,
    pub label: &'static str,
    pub allocation: Allocation,
}

/// The size of the messages in a mode that has only one size.
pub open spec fn message_size(m: RunMode) -> u64 {
    match m {
        RunMode::Combined => 0,
        RunMode::Only24b => 24,
        RunMode::Only256b => 256,
        RunMode::Only4kb => 4_096,
        RunMode::Only64kb => 65_536,
        RunMode::Only512kb => 524_288,
        RunMode::Only4mb => 4_194_304,
        RunMode::Only16mb => 16_777_216,
        RunMode::Only80mb => 83_886_080,
    }
}

/// The modes of one size each, from the smallest size up.
pub open spec fn single_modes() -> Seq<RunMode> {
    seq![
        RunMode::Only24b,
        RunMode::Only256b,
        RunMode::Only4kb,
        RunMode::Only64kb,
        RunMode::Only512kb,
        RunMode::Only4mb,
        RunMode::Only16mb,
        RunMode::Only80mb,
    ]
}

/// The size and label of the stream in a mode that has only one.
pub open spec fn stream_of(m: RunMode) -> (u64, Seq<char>) {
    (message_size(m), run_mode_name(m))
}

/// The streams of a run: all of them in the combined mode, else the one that the mode names.
pub open spec fn streams_of(m: RunMode) -> Seq<(u64, Seq<char>)> {
    if m == RunMode::Combined {
        single_modes().map_values(|s: RunMode| stream_of(s))
    } else {
        seq![stream_of(m)]
    }
}

/// Where the span of a share is longer than this, no interval of 64 bits is long enough for its
/// rate.
pub const SLOWEST: u128 = 0x40_0000_0000_0000_0000_0000_0000_0000;

/// How many units of the target have to be left over for a stream, so that each of its tasks sends
/// one message per second, where what is left over is shared between streams.
pub open spec fn share_span(bytes: u64, among: usize, unit: u128, tasks: nat) -> int {
    8 * bytes * among * unit * tasks
}

/// The span of a share, cut off at the longest.
fn cut_span(bytes: u64, among: usize, unit: u128, tasks: usize) -> (r: u128)
    requires
        0 < bytes <= MAX_MESSAGE_SIZE,
        0 < among <= SIZE_COUNT,
        unit > 0,
        tasks > 0,
    ensures
        r == if share_span(bytes, among, unit, tasks as nat) > SLOWEST {
            SLOWEST as int
        } else {
            share_span(bytes, among, unit, tasks as nat)
        },
        r > 0,
{
    assert(0 < 8 * bytes * among <= 8 * 83_886_080 * 8) by (nonlinear_arith)
        requires
            0 < bytes <= 83_886_080,
            0 < among <= 8,
    ;
    let each: u128 = 8 * bytes as u128 * among as u128;
    let ghost span = share_span(bytes, among, unit, tasks as nat);
    assert(span >= each * unit > 0) by (nonlinear_arith)
        requires
            span == each * unit * tasks,
            each > 0,
            unit > 0,
            tasks > 0,
    ;
    match each.checked_mul(unit) {
        Some(alone) => match alone.checked_mul(tasks as u128) {
            Some(all) => if all > SLOWEST {
                SLOWEST
            } else {
                all
            },
            None => SLOWEST,
        },
        None => SLOWEST,
    }
}

impl ActiveStream {
    /// Whether a stream can be part of a run with a target: its size is one that a run can have,
    /// and its part of the bandwidth is no more than the target, nor than the message rate allows.
    pub open spec fn wf(self, target: Ratio, max_msg_rate: u64) -> bool {
        let need = demand(self.bytes, byte_cap(target, max_msg_rate));
        &&& 0 < self.bytes <= MAX_MESSAGE_SIZE
        &&& match self.allocation {
            Allocation::Capped => need <= target.numerator,
            Allocation::Share { bits, among } => {
                &&& 0 < among <= SIZE_COUNT
                &&& bits <= target.numerator
                &&& bits <= need * among
            },
        }
    }

    /// The part of the target bandwidth that the stream gets.
    pub open spec fn fraction_of(self, target: Ratio, max_msg_rate: u64) -> Ratio {
        if target.numerator == 0 {
            Ratio { numerator: 0, denominator: 1 }
        } else {
            match self.allocation {
                Allocation::Capped => Ratio {
                    numerator: demand(self.bytes, byte_cap(target, max_msg_rate)) as u128,
                    denominator: target.numerator,
                },
                Allocation::Share { bits, among } => Ratio {
                    numerator: bits,
                    denominator: (among * target.numerator) as u128,
                },
            }
        }
    }

    /// The part of the target bandwidth that the stream gets.
    pub fn fraction(&self, target: Ratio, max_msg_rate: u64) -> (r: Ratio)
        requires
            is_target(target),
            self.wf(target, max_msg_rate),
        ensures
            r.wf(),
            r == self.fraction_of(target, max_msg_rate),
            target.numerator == 0 ==> r == (Ratio { numerator: 0, denominator: 1 }),
            target.numerator > 0 ==> match self.allocation {
                Allocation::Capped => r.numerator == demand(
                    self.bytes,
                    byte_cap(target, max_msg_rate),
                ) && r.denominator == target.numerator,
                Allocation::Share { bits, among } => r.numerator == bits && r.denominator == among
                    * target.numerator,
            },
    {
        if target.numerator == 0 {
            return Ratio { numerator: 0, denominator: 1 };
        }
        match self.allocation {
            Allocation::Capped => {
                let bytes: u64 = self.bytes;
                let unit: u128 = target.denominator;
                let ghost need = demand(bytes, byte_cap(target, max_msg_rate));
                proof {
                    assert(8 * max_msg_rate * unit >= 0) by (nonlinear_arith);
                    assert(need == 8 * max_msg_rate * bytes * unit) by (nonlinear_arith)
                        requires
                            need == (8 * max_msg_rate * unit) * bytes,
                    ;
                    assert(8 * max_msg_rate * bytes <= need) by (nonlinear_arith)
                        requires
                            need == 8 * max_msg_rate * bytes * unit,
                            unit >= 1,
                            max_msg_rate >= 0,
                            bytes >= 0,
                    ;
                    assert(8 * max_msg_rate <= 8 * max_msg_rate * bytes) by (nonlinear_arith)
                        requires
                            bytes >= 1,
                            max_msg_rate >= 0,
                    ;
                }
                Ratio {
                    numerator: 8 * max_msg_rate as u128 * bytes as u128 * unit,
                    denominator: target.numerator,
                }
            },
            Allocation::Share { bits, among } => {
                let whole: u128 = target.numerator;
                assert(0 < among * whole <= 8 * MAX_TARGET) by (nonlinear_arith)
                    requires
                        0 < whole <= MAX_TARGET,
                        0 < among <= 8,
                ;
                Ratio { numerator: bits, denominator: among as u128 * whole }
            },
        }
    }

    /// The messages per second that each of several tasks has to send. A rate that is too slow for
    /// any interval is cut off.
    pub open spec fn task_rate(self, target: Ratio, max_msg_rate: u64, tasks: nat) -> Ratio {
        match self.allocation {
            Allocation::Capped => Ratio {
                numerator: max_msg_rate as u128,
                denominator: tasks as u128,
            },
            Allocation::Share { bits, among } => {
                let span = share_span(self.bytes, among, target.denominator, tasks);
                Ratio {
                    numerator: bits,
                    denominator: if span > SLOWEST {
                        SLOWEST
                    } else {
                        span as u128
                    },
                }
            },
        }
    }

    /// The messages per second that each of several tasks has to send, so that together they use
    /// what the stream gets.
    pub fn msgs_per_sec(&self, target: Ratio, max_msg_rate: u64, tasks: usize) -> (r: Ratio)
        requires
            is_target(target),
            self.wf(target, max_msg_rate),
            tasks > 0,
        ensures
            r.wf(),
            r == self.task_rate(target, max_msg_rate, tasks as nat),
            r.numerator + 1000 * r.denominator <= u128::MAX,
    {
        proof {
            lemma_task_rate(*self, target, max_msg_rate, tasks as nat);
        }
        match self.allocation {
            Allocation::Capped => Ratio {
                numerator: max_msg_rate as u128,
                denominator: tasks as u128,
            },
            Allocation::Share { bits, among } => Ratio {
                numerator: bits,
                denominator: cut_span(self.bytes, among, target.denominator, tasks),
            },
        }
    }
}

/// A share holds no more bits than a rate can be computed of.
pub proof fn lemma_task_rate(s: ActiveStream, target: Ratio, max_msg_rate: u64, tasks: nat)
    requires
        is_target(target),
        s.wf(target, max_msg_rate),
        0 < tasks <= usize::MAX,
    ensures
        s.task_rate(target, max_msg_rate, tasks).wf(),
        s.allocation matches Allocation::Share { bits, among } ==> {
            &&& bits <= 0x2_0000_0000_0000_0000_0000_0000
            &&& share_span(s.bytes, among, target.denominator, tasks) > SLOWEST ==> bits
                < 0x8000_0000_0000_0000
            &&& share_span(s.bytes, among, target.denominator, tasks) > 0
        },
{
    if let Allocation::Share { bits, among } = s.allocation {
        let (bytes, unit) = (s.bytes, target.denominator);
        let span = share_span(bytes, among, unit, tasks);
        assert(span > 0) by (nonlinear_arith)
            requires
                span == 8 * bytes * among * unit * tasks,
                bytes > 0,
                among > 0,
                unit > 0,
                tasks > 0,
        ;
        if unit == 1 {
            let need = demand(bytes, byte_cap(target, max_msg_rate));
            assert(need == 8 * max_msg_rate * bytes) by (nonlinear_arith)
                requires
                    need == (8 * max_msg_rate * 1) * bytes,
            ;
            assert(need * among <= 8 * 0xffff_ffff_ffff_ffff * 83_886_080 * 8) by (nonlinear_arith)
                requires
                    need == 8 * max_msg_rate * bytes,
                    0 <= max_msg_rate <= 0xffff_ffff_ffff_ffff,
                    0 < bytes <= 83_886_080,
                    0 < among <= 8,
            ;
            assert(span <= 8 * 83_886_080 * 8 * 0xffff_ffff_ffff_ffff) by (nonlinear_arith)
                requires
                    span == 8 * bytes * among * 1 * tasks,
                    0 < bytes <= 83_886_080,
                    0 < among <= 8,
                    0 < tasks <= 0xffff_ffff_ffff_ffff,
            ;
        }
    }
}

/// Sizes and labels of a list of streams.
pub open spec fn stream_views(streams: Seq<ActiveStream>) -> Seq<(u64, Seq<char>)> {
    streams.map_values(|s: ActiveStream| (s.bytes, s.label@))
}

/// The message sizes of a list of streams.
pub open spec fn stream_sizes(streams: Seq<ActiveStream>) -> Seq<u64> {
    streams.map_values(|s: ActiveStream| s.bytes)
}

/// What the streams of a list get of the bandwidth.
pub open spec fn stream_allocations(streams: Seq<ActiveStream>) -> Seq<Allocation> {
    streams.map_values(|s: ActiveStream| s.allocation)
}

fn sizes_and_labels(mode: &RunMode) -> (r: Vec<(u64, &'static str)>)
    ensures
        r@.len() == streams_of(*mode).len(),
        forall|i: int|
            0 <= i < r@.len() ==> ((#[trigger] r@[i]).0, r@[i].1@) == streams_of(*mode)[i],
{
    match mode {
        RunMode::Combined => vec![
            (24, "24b"),
            (256, "256b"),
            (4_096, "4kb"),
            (65_536, "64kb"),
            (524_288, "512kb"),
            (4_194_304, "4mb"),
            (16_777_216, "16mb"),
            (83_886_080, "80mb"),
        ],
        RunMode::Only24b => vec![(24, "24b")],
        RunMode::Only256b => vec![(256, "256b")],
        RunMode::Only4kb => vec![(4_096, "4kb")],
        RunMode::Only64kb => vec![(65_536, "64kb")],
        RunMode::Only512kb => vec![(524_288, "512kb")],
        RunMode::Only4mb => vec![(4_194_304, "4mb")],
        RunMode::Only16mb => vec![(16_777_216, "16mb")],
        RunMode::Only80mb => vec![(83_886_080, "80mb")],
    }
}

/// The streams that take part in a run, each with its part of the target bandwidth.
pub fn active_streams(mode: &RunMode, target: Ratio, max_msg_rate: u64) -> (r: Vec<ActiveStream>)
    requires
        is_target(target),
    ensures
        stream_views(r@) == streams_of(*mode),
        water_filled(stream_sizes(r@), target, max_msg_rate, stream_allocations(r@)),
        forall|i: int| 0 <= i < r@.len() ==> (#[trigger] r@[i]).wf(target, max_msg_rate),
{
    let sizes = sizes_and_labels(mode);
    let n: usize = sizes.len();
    let mut bytes: Vec<u64> = Vec::new();
    for i in 0..n
        invariant
            n == sizes@.len(),
            bytes@.len() == i,
            forall|k: int| 0 <= k < i ==> #[trigger] bytes@[k] == sizes@[k].0,
    {
        bytes.push(sizes[i].0);
    }
    let allocations = water_fill_rates(bytes.as_slice(), target, max_msg_rate);
    let mut r: Vec<ActiveStream> = Vec::new();
    for i in 0..n
        invariant
            n == sizes@.len(),
            n == bytes@.len(),
            n == allocations@.len(),
            r@.len() == i,
            forall|k: int| 0 <= k < n ==> #[trigger] bytes@[k] == sizes@[k].0,
            forall|k: int|
                0 <= k < i ==> #[trigger] r@[k] == (ActiveStream {
                    bytes: sizes@[k].0,
                    label: sizes@[k].1,
                    allocation: allocations@[k],
                }),
    {
        r.push(
            ActiveStream { bytes: sizes[i].0, label: sizes[i].1, allocation: allocations[i] },
        );
    }
    proof {
        assert(stream_views(r@) =~= streams_of(*mode));
        assert(stream_sizes(r@) =~= bytes@);
        assert(stream_allocations(r@) =~= allocations@);
        assert forall|i: int| 0 <= i < r@.len() implies (#[trigger] r@[i]).wf(
            target,
            max_msg_rate,
        ) by {
            lemma_shares(bytes@, target, max_msg_rate, allocations@, i);
            assert(streams_of(*mode)[i].0 == r@[i].bytes);
            assert(r@[i].allocation == allocations@[i]);
        }
    }
    r
}

/// The name of a topic: prefix, size label and index, joined by underscores.
pub open spec fn topic_text(prefix: Seq<char>, label: Seq<char>, index: nat) -> Seq<char> {
    prefix + seq!['_'] + label + seq!['_'] + decimal(index)
}

/// The name of a topic.
pub fn topic_name(prefix: &str, size_label: &str, stream_index: u64) -> (r: String)
    ensures
        r@ == topic_text(prefix@, size_label@, stream_index as nat),
{
    let mut r = prefix.to_owned();
    r.push('_');
    r.append(size_label);
    r.push('_');
    push_decimal(&mut r, stream_index as u128);
    assert(r@ =~= topic_text(prefix@, size_label@, stream_index as nat));
    r
}

/// The first topic of each stream, in the order of the streams.
pub fn topic_names(prefix: &str, streams: &Vec<ActiveStream>) -> (r: Vec<String>)
    ensures
        r@.len() == streams@.len(),
        forall|i: int|
            0 <= i < r@.len() ==> (#[trigger] r@[i])@ == topic_text(prefix@, streams@[i].label@, 0),
{
    let mut r: Vec<String> = Vec::new();
    for i in 0..streams.len()
        invariant
            r@.len() == i,
            forall|k: int|
                0 <= k < i ==> (#[trigger] r@[k])@ == topic_text(prefix@, streams@[k].label@, 0),
    {
        r.push(topic_name(prefix, streams[i].label, 0));
    }
    r
}

/// A character as it may stand in a stream name.
pub open spec fn stream_name_char(c: char) -> char {
    if c == '.' || c == '-' {
        '_'
    } else {
        c
    }
}

/// A topic with its dots and hyphens replaced, which stream names cannot hold.
pub fn stream_name_from_topic(topic: &str) -> (r: String)
    ensures
        r@ == topic@.map_values(|c: char| stream_name_char(c)),
{
    let mut r = String::new();
    for c in it: topic.chars()
        invariant
            it.seq() == topic@,
            r@ =~= topic@.take(it.index()).map_values(|c: char| stream_name_char(c)),
    {
        if c == '.' || c == '-' {
            r.push('_');
        } else {
            r.push(c);
        }
    }
    assert(topic@.take(topic@.len() as int) =~= topic@);
    r
}

/// The id of the stream that one of several parallel tasks sends.
pub open spec fn stream_id(size: u64, task: int) -> int {
    size * 1000 + task
}

/// The id of the stream that a task sends.
pub fn task_stream_id(size: u64, task: u64) -> (r: u64)
    requires
        stream_id(size, task as int) <= u64::MAX,
    ensures
        r == stream_id(size, task as int),
{
    size * 1000 + task
}

/// The key that the messages of a task carry: stream id and task, joined by a hyphen.
pub fn message_key(stream_id: u64, task: u64) -> (r: String)
    ensures
        r@ == decimal(stream_id as nat) + seq!['-'] + decimal(task as nat),
{
    let mut r = String::new();
    push_decimal(&mut r, stream_id as u128);
    r.push('-');
    push_decimal(&mut r, task as u128);
    assert(r@ =~= decimal(stream_id as nat) + seq!['-'] + decimal(task as nat));
    r
}

/// The partition that a producer task sends to: the tasks go round the partitions.
pub fn task_partition(task: usize, num_partitions: usize) -> (r: i32)
    requires
        num_partitions > 0,
    ensures
        r == (task % num_partitions) as i32,
        num_partitions <= i32::MAX ==> r == task % num_partitions,
{
    (task % num_partitions) as i32
}

/// The partitions that a consumer task reads, out of the first `limit`.
pub open spec fn partitions_of_task(limit: int, num_tasks: usize, task: usize) -> Seq<i32>
    decreases limit,
{
    if limit <= 0 {
        Seq::empty()
    } else if (limit - 1) % (num_tasks as int) == task {
        partitions_of_task(limit - 1, num_tasks, task).push((limit - 1) as i32)
    } else {
        partitions_of_task(limit - 1, num_tasks, task)
    }
}

/// The partitions that a consumer task reads: those whose number leaves the task's own number as
/// the rest when divided by the number of tasks.
pub fn assigned_partitions(num_partitions: usize, num_tasks: usize, task: usize) -> (r: Vec<i32>)
    requires
        num_tasks > 0,
    ensures
        r@ == partitions_of_task(num_partitions as i32 as int, num_tasks, task),
        forall|p: i32| #[trigger]
            r@.contains(p) <==> 0 <= p < num_partitions as i32 && p as int % num_tasks as int
                == task,
        increases_below(r@, num_partitions as i32 as int),
{
    let limit: i32 = num_partitions as i32;
    let mut r: Vec<i32> = Vec::new();
    let mut p: i32 = 0;
    while p < limit
        invariant
            num_tasks > 0,
            0 <= p,
            p <= limit || (p == 0 && limit < 0),
            r@ == partitions_of_task(p as int, num_tasks, task),
        decreases limit - p,
    {
        if (p as usize) % num_tasks == task {
            r.push(p);
        }
        p = p + 1;
    }
    proof {
        law_partitions_of_a_task_increase(limit as int, num_tasks, task);
        assert forall|p: i32| #[trigger] r@.contains(p) <==> 0 <= p < limit && p as int
            % num_tasks as int == task by {
            law_partitions_of_a_task(limit as int, num_tasks, task, p);
        }
    }
    r
}

/// A task reads a partition exactly if its number, divided by the number of tasks, leaves the
/// number of the task.
pub proof fn law_partitions_of_a_task(limit: int, num_tasks: usize, task: usize, p: i32)
    requires
        num_tasks > 0,
        limit <= i32::MAX + 1,
    ensures
        partitions_of_task(limit, num_tasks, task).contains(p) <==> 0 <= p < limit && p as int % (
        num_tasks as int) == task,
    decreases limit,
{
    let all = partitions_of_task(limit, num_tasks, task);
    if limit > 0 {
        law_partitions_of_a_task(limit - 1, num_tasks, task, p);
        let before = partitions_of_task(limit - 1, num_tasks, task);
        if (limit - 1) % (num_tasks as int) == task {
            assert(all.last() == limit - 1);
            if before.contains(p) {
                let i = choose|i: int| 0 <= i < before.len() && before[i] == p;
                assert(all[i] == p);
            }
            if all.contains(p) {
                let i = choose|i: int| 0 <= i < all.len() && all[i] == p;
                if i < before.len() {
                    assert(before[i] == p);
                }
            }
        }
    }
}

/// Between the consumer tasks every partition is read by one task, and by one only.
pub proof fn law_each_partition_has_one_reader(num_partitions: usize, num_tasks: usize, p: i32)
    requires
        num_tasks > 0,
        0 <= p < num_partitions as i32,
    ensures
        exists|task: usize|
            task < num_tasks && #[trigger] partitions_of_task(
                num_partitions as i32 as int,
                num_tasks,
                task,
            ).contains(p),
        forall|a: usize, b: usize|
            #[trigger] partitions_of_task(
                num_partitions as i32 as int,
                num_tasks,
                a,
            ).contains(p) && #[trigger] partitions_of_task(
                num_partitions as i32 as int,
                num_tasks,
                b,
            ).contains(p) ==> a == b,
{
    let limit = num_partitions as i32 as int;
    let reader = (p as int % (num_tasks as int)) as usize;
    law_partitions_of_a_task(limit, num_tasks, reader, p);
    assert(reader < num_tasks);
    assert forall|a: usize, b: usize|
        #[trigger] partitions_of_task(limit, num_tasks, a).contains(p)
            && #[trigger] partitions_of_task(limit, num_tasks, b).contains(p) implies a == b by {
        law_partitions_of_a_task(limit, num_tasks, a, p);
        law_partitions_of_a_task(limit, num_tasks, b, p);
    }
}

/// Whether every number in the sequence is at least 0 and below a limit, and below all that follow.
pub open spec fn increases_below(s: Seq<i32>, limit: int) -> bool {
    &&& forall|i: int| 0 <= i < s.len() ==> 0 <= #[trigger] s[i] < limit
    &&& forall|i: int, j: int| 0 <= i < j < s.len() ==> #[trigger] s[i] < #[trigger] s[j]
}

/// No task is given a partition that is not there, and none twice: its partitions increase.
pub proof fn law_partitions_of_a_task_increase(limit: int, num_tasks: usize, task: usize)
    requires
        num_tasks > 0,
        limit <= i32::MAX + 1,
    ensures
        increases_below(partitions_of_task(limit, num_tasks, task), limit),
    decreases limit,
{
    if limit > 0 {
        law_partitions_of_a_task_increase(limit - 1, num_tasks, task);
    }
}

/// Under one prefix, topics of different labels or indexes have different names: the last
/// underscore always comes before the index.
pub proof fn law_topics_differ(
    prefix: Seq<char>,
    label_a: Seq<char>,
    index_a: nat,
    label_b: Seq<char>,
    index_b: nat,
)
    ensures
        topic_text(prefix, label_a, index_a) == topic_text(prefix, label_b, index_b) <==> label_a
            == label_b && index_a == index_b,
{
    let a = topic_text(prefix, label_a, index_a);
    let b = topic_text(prefix, label_b, index_b);
    let (da, db) = (decimal(index_a), decimal(index_b));
    let n = prefix.len() as int + 1;
    lemma_decimal_digits(index_a);
    lemma_decimal_digits(index_b);
    if a == b {
        if da.len() < db.len() {
            let at = a.len() - da.len() - 1;
            assert(a[at] == '_');
            assert(b[at] == db[db.len() - da.len() - 1]);
        }
        if db.len() < da.len() {
            let at = b.len() - db.len() - 1;
            assert(b[at] == '_');
            assert(a[at] == da[da.len() - db.len() - 1]);
        }
        assert(a.subrange(n, n + label_a.len()) =~= label_a);
        assert(b.subrange(n, n + label_b.len()) =~= label_b);
        assert(a.skip(n + label_a.len() + 1) =~= da);
        assert(b.skip(n + label_b.len() + 1) =~= db);
    }
}

/// The streams of a run never share a topic.
pub proof fn law_streams_have_their_own_topics(
    prefix: Seq<char>,
    a: RunMode,
    index_a: nat,
    b: RunMode,
    index_b: nat,
)
    ensures
        topic_text(prefix, run_mode_name(a), index_a) == topic_text(
            prefix,
            run_mode_name(b),
            index_b,
        ) <==> a == b && index_a == index_b,
{
    law_topics_differ(prefix, run_mode_name(a), index_a, run_mode_name(b), index_b);
    lemma_run_mode_names();
}

/// Stream names hold neither dots nor hyphens, and are kept as they are by a second pass.
pub proof fn law_stream_name_characters(topic: Seq<char>)
    ensures
        ({
            let name = topic.map_values(|c: char| stream_name_char(c));
            &&& name.len() == topic.len()
            &&& forall|i: int| 0 <= i < name.len() ==> #[trigger] name[i] != '.' && name[i] != '-'
            &&& name.map_values(|c: char| stream_name_char(c)) == name
        }),
{
    let name = topic.map_values(|c: char| stream_name_char(c));
    assert(name.map_values(|c: char| stream_name_char(c)) =~= name);
}

/// Tasks that send different streams, or the same stream from different tasks, have different
/// stream ids, as long as their numbers are closer than the distance at which the ids of the two
/// smallest sizes meet.
pub proof fn law_stream_ids_differ(a: RunMode, task_a: int, b: RunMode, task_b: int)
    requires
        a != RunMode::Combined,
        b != RunMode::Combined,
        -232_000 < task_a - task_b < 232_000,
    ensures
        stream_id(message_size(a), task_a) == stream_id(message_size(b), task_b) <==> a == b
            && task_a == task_b,
{
}

/// A target as large as the largest, or larger, caps every stream, so that it makes no difference
/// how large it is.
pub proof fn law_large_targets_cap_all(
    sizes: Seq<u64>,
    budget: nat,
    max_msg_rate: u64,
    capped: Seq<bool>,
    i: int,
)
    requires
        sizes.len() <= SIZE_COUNT,
        forall|k: int| 0 <= k < sizes.len() ==> #[trigger] sizes[k] <= MAX_MESSAGE_SIZE,
        budget >= MAX_TARGET,
        settled(sizes, budget, (8 * max_msg_rate) as nat, capped),
        0 <= i < sizes.len(),
    ensures
        capped[i],
{
    let cap = (8 * max_msg_rate) as nat;
    let all = Seq::new(sizes.len(), |k: int| true);
    lemma_demand_bound(sizes, cap, all);
    lemma_all_capped(all);
    let n = sizes.len();
    assert(n * (cap * MAX_MESSAGE_SIZE) <= 8 * (8 * 0xffff_ffff_ffff_ffff * 83_886_080))
        by (nonlinear_arith)
        requires
            0 <= n <= 8,
            0 <= cap <= 8 * 0xffff_ffff_ffff_ffff,
            MAX_MESSAGE_SIZE == 83_886_080,
    ;
    law_settled_choice_is_unique(sizes, budget, cap, capped, all);
}

proof fn lemma_all_capped(capped: Seq<bool>)
    requires
        forall|k: int| 0 <= k < capped.len() ==> #[trigger] capped[k],
    ensures
        uncapped(capped) == 0,
    decreases capped.len(),
{
    if capped.len() > 0 {
        let before = capped.drop_last();
        assert(forall|k: int| 0 <= k < before.len() ==> before[k] == capped[k]);
        lemma_all_capped(before);
        assert(capped[capped.len() - 1]);
    }
}

proof fn lemma_demand_bound(sizes: Seq<u64>, cap: nat, capped: Seq<bool>)
    requires
        capped.len() == sizes.len(),
        forall|k: int| 0 <= k < sizes.len() ==> #[trigger] sizes[k] <= MAX_MESSAGE_SIZE,
    ensures
        capped_demand(sizes, cap, capped) <= sizes.len() * (cap * MAX_MESSAGE_SIZE),
    decreases sizes.len(),
{
    if sizes.len() > 0 {
        let (s1, c1) = (sizes.drop_last(), capped.drop_last());
        assert(forall|k: int| 0 <= k < s1.len() ==> s1[k] == sizes[k]);
        lemma_demand_bound(s1, cap, c1);
        let (size, n, most) = (sizes[sizes.len() - 1], s1.len(), cap * MAX_MESSAGE_SIZE);
        assert(0 <= cap * size <= most) by (nonlinear_arith)
            requires
                0 <= size <= MAX_MESSAGE_SIZE,
                most == cap * MAX_MESSAGE_SIZE,
                0 <= cap,
        ;
        assert((n + 1) * most == n * most + most) by (nonlinear_arith);
    } else {
        assert(0 * (cap * MAX_MESSAGE_SIZE) == 0) by (nonlinear_arith);
    }
}

/// The messages of every stream are let through, with four mebibytes and more to spare for what a
/// broker puts around them.
pub proof fn law_messages_keep_the_limit(m: RunMode, i: int)
    requires
        0 <= i < streams_of(m).len(),
    ensures
        streams_of(m)[i].0 + 0x40_0000 <= MESSAGE_LIMIT,
{
}

/// Every stream has room for the header.
pub proof fn law_messages_hold_a_header(m: RunMode, i: int)
    requires
        0 <= i < streams_of(m).len(),
    ensures
        streams_of(m)[i].0 >= HEADER_LEN,
{
}

/// The tasks of a stream together send no more messages per second than the cap allows; those of a
/// capped stream send exactly as many. Where bandwidth is shared, their rate times the size of a
/// message in bits is the stream's share of what is left over. Left out are rates that are cut off.
pub proof fn law_rate_and_bandwidth(
    s: ActiveStream,
    target: Ratio,
    max_msg_rate: u64,
    tasks: nat,
)
    requires
        is_target(target),
        s.wf(target, max_msg_rate),
        0 < tasks <= usize::MAX,
        s.allocation matches Allocation::Share { among, .. } ==> 8 * s.bytes * among
            * target.denominator * tasks <= SLOWEST,
    ensures
        ({
            let r = s.task_rate(target, max_msg_rate, tasks);
            &&& r.denominator > 0
            &&& r.numerator * tasks <= max_msg_rate * r.denominator
            &&& s.allocation is Capped ==> r.numerator * tasks == max_msg_rate * r.denominator
            &&& s.allocation matches Allocation::Share { bits, among } ==> r.numerator * (8
                * s.bytes * among * target.denominator * tasks) == bits * r.denominator
        }),
{
    let r = s.task_rate(target, max_msg_rate, tasks);
    lemma_task_rate(s, target, max_msg_rate, tasks);
    match s.allocation {
        Allocation::Capped => {},
        Allocation::Share { bits, among } => {
            let (bytes, unit) = (s.bytes, target.denominator);
            let span = share_span(bytes, among, unit, tasks);
            let need = demand(bytes, byte_cap(target, max_msg_rate));
            assert(8 * max_msg_rate * unit >= 0) by (nonlinear_arith);
            assert(need * among * tasks == max_msg_rate * span) by (nonlinear_arith)
                requires
                    need == (8 * max_msg_rate * unit) * bytes,
                    span == 8 * bytes * among * unit * tasks,
            ;
            assert(bits * tasks <= need * among * tasks) by (nonlinear_arith)
                requires
                    bits <= need * among,
                    tasks > 0,
            ;
        },
    }
}

/// The part of the target that a stream gets, times the target, is what one task that sends the
/// stream alone puts through: its rate times the size of a message in bits. Left out are rates that
/// are cut off.
pub proof fn law_fraction_is_the_bandwidth(s: ActiveStream, target: Ratio, max_msg_rate: u64)
    requires
        is_target(target),
        s.wf(target, max_msg_rate),
        target.numerator > 0,
        s.allocation matches Allocation::Share { among, .. } ==> 8 * s.bytes * among
            * target.denominator <= SLOWEST,
    ensures
        ({
            let f = s.fraction_of(target, max_msg_rate);
            let r = s.task_rate(target, max_msg_rate, 1);
            f.numerator * target.numerator * r.denominator == 8 * s.bytes * r.numerator
                * f.denominator * target.denominator
        }),
{
    let f = s.fraction_of(target, max_msg_rate);
    let r = s.task_rate(target, max_msg_rate, 1);
    let (bytes, unit, whole) = (s.bytes, target.denominator, target.numerator);
    lemma_task_rate(s, target, max_msg_rate, 1);
    match s.allocation {
        Allocation::Capped => {
            let need = demand(bytes, byte_cap(target, max_msg_rate));
            assert(8 * max_msg_rate * unit >= 0) by (nonlinear_arith);
            assert(need >= 0) by (nonlinear_arith)
                requires
                    need == (8 * max_msg_rate * unit) * bytes,
            ;
            assert(f.numerator * whole * r.denominator == 8 * bytes * r.numerator * f.denominator
                * unit) by (nonlinear_arith)
                requires
                    f.numerator == (8 * max_msg_rate * unit) * bytes,
                    f.denominator == whole,
                    r.numerator == max_msg_rate,
                    r.denominator == 1,
            ;
        },
        Allocation::Share { bits, among } => {
            let span = share_span(bytes, among, unit, 1);
            assert(0 <= among * whole <= 8 * MAX_TARGET) by (nonlinear_arith)
                requires
                    0 < whole <= MAX_TARGET,
                    0 < among <= 8,
            ;
            assert(span == 8 * bytes * among * unit);
            assert(f.numerator * whole * r.denominator == 8 * bytes * r.numerator * f.denominator
                * unit) by (nonlinear_arith)
                requires
                    f.numerator == bits,
                    f.denominator == among * whole,
                    r.numerator == bits,
                    r.denominator == 8 * bytes * among * unit,
            ;
        },
    }
}

/// The parts of a topic's name: it begins with the prefix, ends with the index, and has the label
/// in between, with an underscore on either side.
pub proof fn law_parts_of_a_topic(prefix: Seq<char>, label: Seq<char>, index: nat)
    ensures
        ({
            let t = topic_text(prefix, label, index);
            let (p, l) = (prefix.len() as int, label.len() as int);
            &&& t.len() > p + l + 2
            &&& t.take(p) == prefix
            &&& t[p] == '_'
            &&& t.subrange(p + 1, p + 1 + l) == label
            &&& t[p + 1 + l] == '_'
            &&& parsed_number(t.skip(p + l + 2), index) == Some(index)
        }),
{
    let t = topic_text(prefix, label, index);
    let (p, l) = (prefix.len() as int, label.len() as int);
    lemma_decimal_digits(index);
    law_decimal_reads_back(index, index);
    assert(t.take(p) =~= prefix);
    assert(t.subrange(p + 1, p + 1 + l) =~= label);
    assert(t.skip(p + l + 2) =~= decimal(index));
}

/// A stream name keeps every character of the topic but dots and hyphens, which become underscores.
pub proof fn law_stream_name_keeps_the_rest(topic: Seq<char>, i: int)
    requires
        0 <= i < topic.len(),
    ensures
        ({
            let name = topic.map_values(|c: char| stream_name_char(c));
            &&& name.len() == topic.len()
            &&& topic[i] == '.' || topic[i] == '-' ==> name[i] == '_'
            &&& topic[i] != '.' && topic[i] != '-' ==> name[i] == topic[i]
        }),
{
}

/// The stream ids of the tasks of a size follow one another, from 1000 times the size on.
pub proof fn law_ids_follow_one_another(size: u64, a: int, b: int)
    ensures
        stream_id(size, 0) == 1000 * size,
        stream_id(size, a) - stream_id(size, b) == a - b,
{
}

/// The name of a mode says how large its messages are: a number, of bytes, of kibibytes or of
/// mebibytes.
pub proof fn law_labels_say_sizes(m: RunMode)
    requires
        m != RunMode::Combined,
    ensures
        ({
            let name = run_mode_name(m);
            let n = name.len() as int;
            &&& n >= 3
            &&& name[n - 1] == 'b'
            &&& name[n - 2] == 'k' ==> message_size(m) == 1024 * digits_value(name.take(n - 2))
            &&& name[n - 2] == 'm' ==> message_size(m) == 1_048_576 * digits_value(name.take(n - 2))
            &&& name[n - 2] != 'k' && name[n - 2] != 'm' ==> message_size(m) == digits_value(
                name.take(n - 1),
            )
        }),
{
    reveal_strlit("24b");
    reveal_strlit("256b");
    reveal_strlit("4kb");
    reveal_strlit("64kb");
    reveal_strlit("512kb");
    reveal_strlit("4mb");
    reveal_strlit("16mb");
    reveal_strlit("80mb");
    lemma_short_numbers();
    let name = run_mode_name(m);
    match m {
        RunMode::Combined => {},
        RunMode::Only24b => assert(name.take(2) =~= seq!['2', '4']),
        RunMode::Only256b => assert(name.take(3) =~= seq!['2', '5', '6']),
        RunMode::Only4kb | RunMode::Only4mb => assert(name.take(1) =~= seq!['4']),
        RunMode::Only64kb => assert(name.take(2) =~= seq!['6', '4']),
        RunMode::Only512kb => assert(name.take(3) =~= seq!['5', '1', '2']),
        RunMode::Only16mb => assert(name.take(2) =~= seq!['1', '6']),
        RunMode::Only80mb => assert(name.take(2) =~= seq!['8', '0']),
    }
}

proof fn lemma_short_numbers()
    ensures
        digits_value(seq!['4']) == 4,
        digits_value(seq!['2', '4']) == 24,
        digits_value(seq!['6', '4']) == 64,
        digits_value(seq!['1', '6']) == 16,
        digits_value(seq!['8', '0']) == 80,
        digits_value(seq!['2', '5', '6']) == 256,
        digits_value(seq!['5', '1', '2']) == 512,
{
    reveal_with_fuel(digits_value, 4);
    assert(seq!['4'].drop_last() =~= Seq::empty());
    assert(seq!['2', '4'].drop_last() =~= seq!['2'] && seq!['2'].drop_last() =~= Seq::empty());
    assert(seq!['6', '4'].drop_last() =~= seq!['6'] && seq!['6'].drop_last() =~= Seq::empty());
    assert(seq!['1', '6'].drop_last() =~= seq!['1'] && seq!['1'].drop_last() =~= Seq::empty());
    assert(seq!['8', '0'].drop_last() =~= seq!['8'] && seq!['8'].drop_last() =~= Seq::empty());
    assert(seq!['2', '5', '6'].drop_last() =~= seq!['2', '5']);
    assert(seq!['2', '5'].drop_last() =~= seq!['2']);
    assert(seq!['5', '1', '2'].drop_last() =~= seq!['5', '1']);
    assert(seq!['5', '1'].drop_last() =~= seq!['5'] && seq!['5'].drop_last() =~= Seq::empty());
}

/// A mode of one size has that stream alone. The combined mode has the streams of all those modes,
/// each once, and smaller messages come before larger ones.
pub proof fn law_streams_of_a_mode(m: RunMode, i: int, j: int)
    requires
        m != RunMode::Combined,
        0 <= i < j < streams_of(RunMode::Combined).len(),
    ensures
        streams_of(m) == seq![(message_size(m), run_mode_name(m))],
        streams_of(RunMode::Combined).len() == 8,
        streams_of(RunMode::Combined).contains((message_size(m), run_mode_name(m))),
        streams_of(RunMode::Combined)[i].0 < streams_of(RunMode::Combined)[j].0,
{
    let all = streams_of(RunMode::Combined);
    let modes = single_modes();
    assert(exists|k: int| 0 <= k < modes.len() && modes[k] == m) by {
        match m {
            RunMode::Combined => {},
            RunMode::Only24b => assert(modes[0] == m),
            RunMode::Only256b => assert(modes[1] == m),
            RunMode::Only4kb => assert(modes[2] == m),
            RunMode::Only64kb => assert(modes[3] == m),
            RunMode::Only512kb => assert(modes[4] == m),
            RunMode::Only4mb => assert(modes[5] == m),
            RunMode::Only16mb => assert(modes[6] == m),
            RunMode::Only80mb => assert(modes[7] == m),
        }
    }
    let k = choose|k: int| 0 <= k < modes.len() && modes[k] == m;
    assert(all[k] == (message_size(m), run_mode_name(m)));
}

/// Sizes, labels and allocations of a list of streams are those of its streams, one by one.
pub proof fn law_streams_one_by_one(streams: Seq<ActiveStream>, i: int)
    requires
        0 <= i < streams.len(),
    ensures
        stream_views(streams).len() == streams.len(),
        stream_views(streams)[i].0 == streams[i].bytes,
        stream_views(streams)[i].1 == streams[i].label@,
        stream_sizes(streams).len() == streams.len(),
        stream_sizes(streams)[i] == streams[i].bytes,
        stream_allocations(streams).len() == streams.len(),
        stream_allocations(streams)[i] == streams[i].allocation,
{
}

} // verus!
