//! Which tasks a producer starts, and what each of them sends.
use crate::allocation::Allocation;
use crate::config::{BrokerType, Config, RunMode};
use crate::pacing::{
    capped_pace, in_flight_limit, law_batches_at_high_rates, law_cap_costs_no_more_than_needed,
    law_cap_is_kept, lemma_batch_is_enough, max_in_flight, rate_params, schedule, sent_within,
    RateParams,
};
use crate::ratio::Ratio;
use crate::streams::{
    law_stream_ids_differ, lemma_task_rate, message_key, message_size, share_span, stream_id,
    task_partition, task_stream_id, topic_name, topic_text, ActiveStream, SLOWEST,
};
use crate::target::is_target;
use crate::text::{decimal, digits_value, lemma_decimal_digits};
use vstd::prelude::*;

verus! {

/// What one producer task sends.
#[derive(Debug, Clone)]
pub struct TaskPlan {
    pub task: usize,
    /// The stream id in the headers of its messages.
    pub stream_id: u64,
    /// The partition that its messages go to.
    pub partition: i32,
    /// The key of its messages.
    pub key: String,
}

/// How the messages of one stream are sent.
#[derive(Debug, Clone)]
pub struct StreamPlan {
    pub stream: ActiveStream,
    pub topic: String,
    /// The pace of each task.
    pub rate: RateParams,
    /// How many messages each task may have on their way at once.
    pub max_in_flight: usize,
    pub tasks: Vec<TaskPlan>,
}

/// How many tasks send the messages of one stream.
pub open spec fn tasks_per_stream(c: Config) -> usize {
    match c.broker_type {
        BrokerType::Nats => 1,
        BrokerType::Redpanda | BrokerType::Kafka => c.num_producer_tasks,
        BrokerType::Grpc => c.num_partitions,
    }
}

/// Whether the stream ids of a broker tell the tasks of a stream apart. A stream that one task
/// sends goes by its size, but for gRPC, where the server knows streams by the ids of their
/// partitions.
pub open spec fn numbers_tasks(b: BrokerType, tasks: nat) -> bool {
    match b {
        BrokerType::Nats => false,
        BrokerType::Redpanda | BrokerType::Kafka => tasks != 1,
        BrokerType::Grpc => true,
    }
}

/// The stream id of one of the tasks that send a stream.
pub open spec fn planned_id(b: BrokerType, size: u64, task: int, tasks: nat) -> int {
    if numbers_tasks(b, tasks) {
        stream_id(size, task)
    } else {
        size as int
    }
}

/// The stream id of the last task that sends a stream.
pub open spec fn last_id(c: Config, stream: ActiveStream) -> int {
    let tasks = tasks_per_stream(c) as nat;
    planned_id(c.broker_type, stream.bytes, tasks - 1, tasks)
}

impl TaskPlan {
    /// Whether this is what a task of a stream has to send.
    pub open spec fn sends(self, c: Config, stream: ActiveStream, task: int) -> bool {
        &&& self.task == task
        &&& self.stream_id == planned_id(
            c.broker_type,
            stream.bytes,
            task,
            tasks_per_stream(c) as nat,
        )
        &&& self.partition == (self.task % c.num_partitions) as i32
        &&& self.key@ == decimal(self.stream_id as nat) + seq!['-'] + decimal(task as nat)
    }
}

impl StreamPlan {
    /// Whether this is how the messages of a stream have to be sent.
    pub open spec fn sends(self, c: Config, stream: ActiveStream) -> bool {
        let tasks = tasks_per_stream(c) as nat;
        let rate = stream.task_rate(c.target, c.max_msg_rate, tasks);
        &&& self.stream == stream
        &&& self.topic@ == topic_text(c.topic_prefix@, stream.label@, 0)
        &&& self.rate == capped_pace(rate, tasks, c.max_msg_rate)
        &&& self.max_in_flight == in_flight_limit(rate)
        &&& self.tasks@.len() == tasks_per_stream(c)
        &&& forall|t: int|
            0 <= t < self.tasks@.len() ==> (#[trigger] self.tasks@[t]).sends(c, stream, t)
    }
}

/// How many tasks send the messages of one stream.
pub fn task_count(c: &Config) -> (r: usize)
    ensures
        r == tasks_per_stream(*c),
{
    match c.broker_type {
        BrokerType::Nats => 1,
        BrokerType::Redpanda | BrokerType::Kafka => c.num_producer_tasks,
        BrokerType::Grpc => c.num_partitions,
    }
}

fn task_plans(c: &Config, stream: &ActiveStream) -> (r: Option<Vec<TaskPlan>>)
    requires
        stream.wf(c.target, c.max_msg_rate),
        c.num_partitions > 0,
        tasks_per_stream(*c) > 0,
    ensures
        r is Some <==> last_id(*c, *stream) <= u64::MAX,
        r matches Some(tasks) ==> {
            &&& tasks@.len() == tasks_per_stream(*c)
            &&& forall|t: int|
                0 <= t < tasks@.len() ==> (#[trigger] tasks@[t]).sends(*c, *stream, t)
        },
{
    let n: usize = task_count(c);
    let base: u64 = stream.bytes * 1000;
    let numbered: bool = match c.broker_type {
        BrokerType::Nats => false,
        BrokerType::Redpanda | BrokerType::Kafka => n != 1,
        BrokerType::Grpc => true,
    };
    if numbered && (n - 1) as u64 > u64::MAX - base {
        return None;
    }
    let mut tasks: Vec<TaskPlan> = Vec::new();
    for t in 0..n
        invariant
            n == tasks_per_stream(*c),
            c.num_partitions > 0,
            numbered == numbers_tasks(c.broker_type, n as nat),
            numbered ==> stream_id(stream.bytes, n - 1) <= u64::MAX,
            tasks@.len() == t,
            forall|k: int| 0 <= k < t ==> (#[trigger] tasks@[k]).sends(*c, *stream, k),
    {
        let id: u64 = if numbered {
            task_stream_id(stream.bytes, t as u64)
        } else {
            stream.bytes
        };
        tasks.push(
            TaskPlan {
                task: t,
                stream_id: id,
                partition: task_partition(t, c.num_partitions),
                key: message_key(id, t as u64),
            },
        );
    }
    Some(tasks)
}

/// How the messages of each stream of a run are sent; `None` where a stream id would not fit in 64
/// bits.
pub fn producer_plan(c: &Config, streams: &Vec<ActiveStream>) -> (r: Option<Vec<StreamPlan>>)
    requires
        is_target(c.target),
        forall|i: int|
            0 <= i < streams@.len() ==> (#[trigger] streams@[i]).wf(c.target, c.max_msg_rate),
        c.num_partitions > 0,
        c.num_producer_tasks > 0,
        c.max_msg_rate > 0,
    ensures
        r is Some <==> forall|i: int|
            0 <= i < streams@.len() ==> last_id(*c, #[trigger] streams@[i]) <= u64::MAX,
        r matches Some(plan) ==> {
            &&& plan@.len() == streams@.len()
            &&& forall|i: int|
                0 <= i < plan@.len() ==> (#[trigger] plan@[i]).sends(*c, streams@[i])
            &&& forall|i: int|
                0 <= i < plan@.len() ==> (#[trigger] plan@[i]).tasks@.len() == match c.broker_type {
                    BrokerType::Nats => 1,
                    BrokerType::Redpanda | BrokerType::Kafka => c.num_producer_tasks,
                    BrokerType::Grpc => c.num_partitions,
                }
        },
{
    let n: usize = task_count(c);
    let mut plan: Vec<StreamPlan> = Vec::new();
    for i in 0..streams.len()
        invariant
            is_target(c.target),
            forall|k: int|
                0 <= k < streams@.len() ==> (#[trigger] streams@[k]).wf(c.target, c.max_msg_rate),
            c.num_partitions > 0,
            c.max_msg_rate > 0,
            n == tasks_per_stream(*c),
            n > 0,
            plan@.len() == i,
            forall|k: int|
                0 <= k < i ==> last_id(*c, #[trigger] streams@[k]) <= u64::MAX,
            forall|k: int| 0 <= k < i ==> (#[trigger] plan@[k]).sends(*c, streams@[k]),
    {
        let stream = streams[i];
        let rate = stream.msgs_per_sec(c.target, c.max_msg_rate, n);
        match task_plans(c, &stream) {
            Some(tasks) => {
                plan.push(
                    StreamPlan {
                        stream,
                        topic: topic_name(c.topic_prefix.as_str(), stream.label, 0),
                        rate: schedule(rate, n, c.max_msg_rate),
                        max_in_flight: max_in_flight(rate),
                        tasks,
                    },
                );
            },
            None => {
                assert(last_id(*c, streams@[i as int]) > u64::MAX);
                return None;
            },
        }
    }
    Some(plan)
}

/// The tasks of a run have stream ids of their own, so that gaps in the numbering of one are never
/// laid to another. This holds up to the number of tasks at which the ids of the two smallest
/// sizes meet.
pub proof fn law_tasks_have_their_own_ids(
    c: Config,
    a: RunMode,
    task_a: int,
    b: RunMode,
    task_b: int,
)
    requires
        a != RunMode::Combined,
        b != RunMode::Combined,
        0 <= task_a < tasks_per_stream(c),
        0 <= task_b < tasks_per_stream(c),
        tasks_per_stream(c) <= 232_000,
    ensures
        ({
            let tasks = tasks_per_stream(c) as nat;
            planned_id(c.broker_type, message_size(a), task_a, tasks) == planned_id(
                c.broker_type,
                message_size(b),
                task_b,
                tasks,
            ) <==> a == b && task_a == task_b
        }),
{
    law_stream_ids_differ(a, task_a, b, task_b);
}

/// Where one task sends a stream, the stream id is the message size, but for gRPC.
pub proof fn law_single_task_goes_by_size(c: Config, stream: ActiveStream, plan: StreamPlan)
    requires
        plan.sends(c, stream),
        tasks_per_stream(c) == 1,
        c.broker_type != BrokerType::Grpc,
    ensures
        plan.tasks@.len() == 1,
        plan.tasks@[0].stream_id == stream.bytes,
{
    assert(plan.tasks@[0].sends(c, stream, 0));
}

/// The tasks of a stream together keep within the most messages per second that a stream may send,
/// but for the first batch of each, over any time from the start. Left out are numbers of tasks so
/// large that no interval of 64 bits is long enough for them.
pub proof fn law_streams_keep_the_cap(
    c: Config,
    stream: ActiveStream,
    plan: StreamPlan,
    ms: nat,
)
    requires
        plan.sends(c, stream),
        is_target(c.target),
        stream.wf(c.target, c.max_msg_rate),
        c.max_msg_rate > 0,
        tasks_per_stream(c) > 0,
        tasks_per_stream(c) * 1000 * plan.rate.batch_size <= c.max_msg_rate * u64::MAX,
    ensures
        1000 * (plan.tasks@.len() * sent_within(plan.rate, ms)) <= c.max_msg_rate * ms + 1000 * (
        plan.tasks@.len() * plan.rate.batch_size),
{
    let tasks = tasks_per_stream(c) as nat;
    let rate = stream.task_rate(c.target, c.max_msg_rate, tasks);
    lemma_task_rate(stream, c.target, c.max_msg_rate, tasks);
    assert(plan.rate.batch_size == rate_params(rate).batch_size);
    law_cap_is_kept(rate, tasks, c.max_msg_rate, ms);
}

/// The tasks of a stream share its rate evenly: each sends an equal part of what a single task
/// would have to send. Left out are rates that are cut off.
pub proof fn law_tasks_share_the_rate(
    stream: ActiveStream,
    target: Ratio,
    max_msg_rate: u64,
    tasks: usize,
)
    requires
        is_target(target),
        stream.wf(target, max_msg_rate),
        tasks > 0,
        stream.allocation matches Allocation::Share { among, .. } ==> share_span(
            stream.bytes,
            among,
            target.denominator,
            tasks as nat,
        ) <= SLOWEST,
    ensures
        ({
            let alone = stream.task_rate(target, max_msg_rate, 1);
            let shared = stream.task_rate(target, max_msg_rate, tasks as nat);
            &&& shared.wf()
            &&& shared.numerator == alone.numerator
            &&& shared.denominator == alone.denominator * tasks
        }),
{
    let alone = stream.task_rate(target, max_msg_rate, 1);
    lemma_task_rate(stream, target, max_msg_rate, tasks as nat);
    lemma_task_rate(stream, target, max_msg_rate, 1);
    if let Allocation::Share { among, .. } = stream.allocation {
        let (bytes, unit) = (stream.bytes, target.denominator);
        let one = 8 * bytes * among * unit;
        let span = share_span(bytes, among, unit, tasks as nat);
        assert(one <= span) by (nonlinear_arith)
            requires
                span == one * tasks,
                one * 1 > 0,
                tasks >= 1,
        ;
        assert(share_span(bytes, among, unit, 1) == one);
    } else {
        assert(alone.denominator * tasks == tasks) by (nonlinear_arith)
            requires
                alone.denominator == 1,
        ;
    }
}

/// Where a rate is cut off, the true rate is so slow that the interval between two messages would
/// not fit in 64 bits, and the interval is the longest there is, with the cut-off rate as with the
/// true one.
pub proof fn law_slow_streams_wait(
    stream: ActiveStream,
    target: Ratio,
    max_msg_rate: u64,
    tasks: usize,
)
    requires
        is_target(target),
        stream.wf(target, max_msg_rate),
        tasks > 0,
        stream.allocation matches Allocation::Share { bits, among } && bits > 0 && share_span(
            stream.bytes,
            among,
            target.denominator,
            tasks as nat,
        ) > SLOWEST,
    ensures
        rate_params(stream.task_rate(target, max_msg_rate, tasks as nat)) == (RateParams {
            interval_ms: u64::MAX,
            batch_size: 1,
        }),
        stream.allocation matches Allocation::Share { bits, among } ==> (1000 * share_span(
            stream.bytes,
            among,
            target.denominator,
            tasks as nat,
        )) / (bits as int) > u64::MAX,
{
    if let Allocation::Share { bits, among } = stream.allocation {
        lemma_task_rate(stream, target, max_msg_rate, tasks as nat);
        let span = share_span(stream.bytes, among, target.denominator, tasks as nat);
        let rate = stream.task_rate(target, max_msg_rate, tasks as nat);
        law_batches_at_high_rates(rate);
        let slow = 1000 * SLOWEST;
        vstd::arithmetic::div_mod::lemma_div_is_ordered(slow as int, 1000 * span, bits as int);
        vstd::arithmetic::div_mod::lemma_div_is_ordered_by_denominator(
            slow as int,
            bits as int,
            0x8000_0000_0000_0000,
        );
        assert(slow / 0x8000_0000_0000_0000 > u64::MAX);
        assert(1000 * 1 * SLOWEST == slow);
    }
}

/// How many tasks send each stream: as many as were asked for with Redpanda and with Kafka, one for
/// each partition with gRPC, one with NATS. They are numbered from 0, and go round the partitions.
pub proof fn law_tasks_of_a_stream(c: Config, stream: ActiveStream, plan: StreamPlan, t: int)
    requires
        plan.sends(c, stream),
        0 < c.num_partitions <= i32::MAX,
        0 <= t < plan.tasks@.len(),
    ensures
        c.broker_type == BrokerType::Redpanda ==> plan.tasks@.len() == c.num_producer_tasks,
        c.broker_type == BrokerType::Kafka ==> plan.tasks@.len() == c.num_producer_tasks,
        c.broker_type == BrokerType::Grpc ==> plan.tasks@.len() == c.num_partitions,
        c.broker_type == BrokerType::Nats ==> plan.tasks@.len() == 1,
        plan.tasks@[t].task == t,
        plan.tasks@[t].partition == t % (c.num_partitions as int),
        plan.stream == stream,
        plan.topic@ == c.topic_prefix@ + seq!['_'] + stream.label@ + seq!['_'] + decimal(0),
{
    assert(plan.tasks@[t].sends(c, stream, t));
}

/// Where there are as many tasks as partitions, or more, every partition is sent to; and two tasks
/// send to the same partition exactly if their numbers are a multiple of the partitions apart.
pub proof fn law_every_partition_is_sent_to(
    c: Config,
    stream: ActiveStream,
    plan: StreamPlan,
    partition: i32,
    t: int,
    u: int,
)
    requires
        plan.sends(c, stream),
        0 < c.num_partitions <= i32::MAX,
        0 <= partition < c.num_partitions,
        0 <= t < plan.tasks@.len(),
        0 <= u < plan.tasks@.len(),
    ensures
        c.broker_type == BrokerType::Grpc || (c.broker_type != BrokerType::Nats
            && c.num_producer_tasks >= c.num_partitions) ==> exists|k: int|
            0 <= k < plan.tasks@.len() && (#[trigger] plan.tasks@[k]).partition == partition,
        plan.tasks@[t].partition == plan.tasks@[u].partition <==> (t - u) % (
        c.num_partitions as int) == 0,
{
    let n = c.num_partitions as int;
    law_tasks_of_a_stream(c, stream, plan, t);
    law_tasks_of_a_stream(c, stream, plan, u);
    if c.broker_type == BrokerType::Grpc || (c.broker_type != BrokerType::Nats
        && c.num_producer_tasks >= c.num_partitions) {
        law_tasks_of_a_stream(c, stream, plan, partition as int);
        vstd::arithmetic::div_mod::lemma_small_mod(partition as nat, n as nat);
        assert(plan.tasks@[partition as int].partition == partition);
    }
    vstd::arithmetic::div_mod::lemma_mod_equivalence(t, u, n);
}

/// Redpanda and Kafka are sent to alike: the same settings give the same plan.
pub proof fn law_redpanda_like_kafka(
    c: Config,
    d: Config,
    stream: ActiveStream,
    a: StreamPlan,
    b: StreamPlan,
    t: int,
)
    requires
        c.broker_type == BrokerType::Redpanda,
        d == (Config { broker_type: BrokerType::Kafka, ..c }),
        a.sends(c, stream),
        b.sends(d, stream),
        0 <= t < a.tasks@.len(),
    ensures
        a.tasks@.len() == b.tasks@.len(),
        a.rate == b.rate,
        a.max_in_flight == b.max_in_flight,
        a.topic@ == b.topic@,
        a.tasks@[t].stream_id == b.tasks@[t].stream_id,
        a.tasks@[t].partition == b.tasks@[t].partition,
        a.tasks@[t].key@ == b.tasks@[t].key@,
{
    assert(a.tasks@[t].sends(c, stream, t));
    assert(b.tasks@[t].sends(d, stream, t));
}

/// The ids of the tasks: the size where one task sends a stream, but for gRPC; else the size times
/// 1000, and the number of the task behind it. The key is the id and the number of the task.
pub proof fn law_ids_of_a_plan(c: Config, stream: ActiveStream, plan: StreamPlan, t: int)
    requires
        plan.sends(c, stream),
        0 <= t < plan.tasks@.len(),
    ensures
        c.broker_type == BrokerType::Nats ==> plan.tasks@[t].stream_id == stream.bytes,
        c.broker_type == BrokerType::Grpc ==> plan.tasks@[t].stream_id == 1000 * stream.bytes + t,
        c.broker_type != BrokerType::Nats && plan.tasks@.len() > 1 ==> plan.tasks@[t].stream_id
            == 1000 * stream.bytes + t,
        c.broker_type != BrokerType::Grpc && plan.tasks@.len() == 1 ==> plan.tasks@[t].stream_id
            == stream.bytes,
        ({
            let n = decimal(plan.tasks@[t].stream_id as nat).len() as int;
            let key = plan.tasks@[t].key@;
            &&& key[n] == '-'
            &&& digits_value(key.take(n)) == plan.tasks@[t].stream_id
            &&& digits_value(key.skip(n + 1)) == t
        }),
{
    let task = plan.tasks@[t];
    assert(task.sends(c, stream, t));
    let n = decimal(task.stream_id as nat).len() as int;
    lemma_decimal_digits(task.stream_id as nat);
    lemma_decimal_digits(t as nat);
    assert(task.key@.take(n) =~= decimal(task.stream_id as nat));
    assert(task.key@.skip(n + 1) =~= decimal(t as nat));
}

/// No two tasks of a run have the same stream id, up to the number of tasks at which the ids of the
/// two smallest sizes meet.
pub proof fn law_ids_of_two_plans_differ(
    c: Config,
    x: ActiveStream,
    a: StreamPlan,
    t: int,
    y: ActiveStream,
    b: StreamPlan,
    u: int,
    mx: RunMode,
    my: RunMode,
)
    requires
        a.sends(c, x),
        b.sends(c, y),
        mx != RunMode::Combined,
        my != RunMode::Combined,
        x.bytes == message_size(mx),
        y.bytes == message_size(my),
        0 <= t < a.tasks@.len(),
        0 <= u < b.tasks@.len(),
        a.tasks@.len() <= 232_000,
    ensures
        a.tasks@[t].stream_id == b.tasks@[u].stream_id <==> x.bytes == y.bytes && t == u,
{
    law_ids_of_a_plan(c, x, a, t);
    law_ids_of_a_plan(c, y, b, u);
    assert(a.tasks@.len() == b.tasks@.len());
}

/// The pace of a plan sends what the stream is due, as far as the cap lets it: either the tasks
/// together keep up with the rate, or one millisecond less between batches would exceed the cap.
pub proof fn law_plan_sends_what_is_due(c: Config, stream: ActiveStream, plan: StreamPlan)
    requires
        plan.sends(c, stream),
        is_target(c.target),
        stream.wf(c.target, c.max_msg_rate),
        c.max_msg_rate > 0,
        plan.tasks@.len() > 0,
        plan.rate.batch_size < u64::MAX,
    ensures
        ({
            let rate = stream.task_rate(c.target, c.max_msg_rate, plan.tasks@.len());
            ||| plan.rate.interval_ms * rate.numerator <= 1000 * plan.rate.batch_size
                * rate.denominator
            ||| plan.tasks@.len() * 1000 * plan.rate.batch_size > c.max_msg_rate * (
            plan.rate.interval_ms - 1)
        }),
{
    let tasks = plan.tasks@.len();
    let rate = stream.task_rate(c.target, c.max_msg_rate, tasks);
    lemma_task_rate(stream, c.target, c.max_msg_rate, tasks);
    law_cap_costs_no_more_than_needed(rate, tasks, c.max_msg_rate);
    let p = plan.rate;
    let (num, den, batch) = (rate.numerator as int, rate.denominator as int, p.batch_size as int);
    let sent = 1000 * batch * den;
    assert(sent >= 0) by (nonlinear_arith)
        requires
            sent == 1000 * batch * den,
            batch >= 0,
            den >= 0,
    ;
    if num == 0 {
        assert(p.interval_ms * num == 0) by (nonlinear_arith)
            requires
                num == 0,
        ;
    } else if p.interval_ms == rate_params(rate).interval_ms {
        lemma_batch_is_enough(rate);
        vstd::arithmetic::div_mod::lemma_fundamental_div_mod(sent, num);
        let span = sent / num;
        assert(span >= 1) by (nonlinear_arith)
            requires
                sent == num * span + sent % num,
                sent % num < num,
                num <= sent,
                num > 0,
        ;
        assert(p.interval_ms * num <= sent) by (nonlinear_arith)
            requires
                p.interval_ms <= span,
                sent == num * span + sent % num,
                sent % num >= 0,
                num > 0,
        ;
    }
}

/// The last id of a stream, which has to fit in 64 bits for a plan to be made: the size, where one
/// task sends the stream, but for gRPC; else 1000 times the size, and the number of the last task.
pub proof fn law_last_id(c: Config, stream: ActiveStream)
    ensures
        c.broker_type == BrokerType::Nats ==> last_id(c, stream) == stream.bytes,
        c.broker_type == BrokerType::Grpc ==> last_id(c, stream) == 1000 * stream.bytes
            + c.num_partitions - 1,
        c.broker_type == BrokerType::Redpanda || c.broker_type == BrokerType::Kafka ==> {
            &&& c.num_producer_tasks == 1 ==> last_id(c, stream) == stream.bytes
            &&& c.num_producer_tasks > 1 ==> last_id(c, stream) == 1000 * stream.bytes
                + c.num_producer_tasks - 1
        },
{
}

} // verus!
