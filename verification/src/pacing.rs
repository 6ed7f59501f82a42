//! When a producer sends: tick interval and batch size for a message rate, the steps of the send
//! loop, and what a throughput report says.
use crate::ratio::Ratio;
use crate::text::{contains_text, holds_text};
use vstd::prelude::*;

verus! {

/// How a message rate is kept: `batch_size` messages every `interval_ms` milliseconds.
#[derive(Debug, Clone, Copy, PartialEq, Eq, Structural)]
pub struct RateParams {
    pub interval_ms: u64,
    pub batch_size: u64,
}

/// The quotient rounded up.
pub open spec fn quotient_up(a: int, b: int) -> int {
    (a + b - 1) / b
}

/// The larger of two numbers.
pub open spec fn larger(a: int, b: int) -> int {
    if a < b {
        b
    } else {
        a
    }
}

/// The smaller of two numbers.
pub open spec fn smaller(a: int, b: int) -> int {
    if b < a {
        b
    } else {
        a
    }
}

/// Messages per tick such that 1000 ticks per second are enough, at least one.
pub open spec fn batch_for(rate: Ratio) -> int {
    larger(1, quotient_up(rate.numerator as int, 1000 * rate.denominator))
}

/// Whole milliseconds between batches of the given size, rounded down, at least one.
pub open spec fn interval_for(rate: Ratio, batch: int) -> int {
    larger(1, (1000 * batch * rate.denominator) / (rate.numerator as int))
}

/// How a message rate is kept. Numbers that do not fit in 64 bits are cut off at the largest that
/// does. A rate of 0 is kept as one message per second.
pub open spec fn rate_params(rate: Ratio) -> RateParams {
    if rate.numerator == 0 {
        RateParams { interval_ms: 1000, batch_size: 1 }
    } else {
        let batch = smaller(batch_for(rate), u64::MAX as int);
        RateParams {
            interval_ms: smaller(interval_for(rate, batch), u64::MAX as int) as u64,
            batch_size: batch as u64,
        }
    }
}

fn divide_up(a: u128, b: u128) -> (r: u128)
    requires
        b > 0,
    ensures
        r == quotient_up(a as int, b as int),
        r * b < a + b,
        a <= r * b,
{
    let q: u128 = a / b;
    let rest: u128 = a % b;
    proof {
        vstd::arithmetic::div_mod::lemma_fundamental_div_mod(a as int, b as int);
        assert(b * q == q * b) by (nonlinear_arith);
        if rest == 0 {
            vstd::arithmetic::div_mod::lemma_fundamental_div_mod_converse(
                a + b - 1,
                b as int,
                q as int,
                b - 1,
            );
        } else {
            assert((q + 1) * b == q * b + b) by (nonlinear_arith);
            vstd::arithmetic::div_mod::lemma_fundamental_div_mod_converse(
                a + b - 1,
                b as int,
                q + 1,
                rest - 1,
            );
            assert(q < a) by (nonlinear_arith)
                requires
                    a == q * b + rest,
                    rest > 0,
                    b > 0,
            ;
        }
    }
    if rest == 0 {
        q
    } else {
        q + 1
    }
}

/// Tick interval and batch size for a message rate.
pub fn compute_rate_params(msgs_per_sec: Ratio) -> (r: RateParams)
    requires
        msgs_per_sec.wf(),
        msgs_per_sec.numerator + 1000 * msgs_per_sec.denominator <= u128::MAX,
    ensures
        r == rate_params(msgs_per_sec),
{
    let num: u128 = msgs_per_sec.numerator;
    let den: u128 = msgs_per_sec.denominator;
    if num == 0 {
        return RateParams { interval_ms: 1000, batch_size: 1 };
    }
    let top: u128 = u64::MAX as u128;
    let needed: u128 = divide_up(num, 1000 * den);
    let wanted: u128 = if needed < 1 {
        1
    } else {
        needed
    };
    let batch: u128 = if wanted > top {
        top
    } else {
        wanted
    };
    proof {
        let unit = 1000 * den;
        assert(batch * unit <= num + unit) by (nonlinear_arith)
            requires
                needed * unit < num + unit,
                batch <= wanted,
                wanted == 1 || wanted == needed,
                unit >= 0,
                num >= 0,
        ;
        assert(1000 * batch * den == batch * unit) by (nonlinear_arith)
            requires
                unit == 1000 * den,
        ;
        assert(1000 * batch <= 1000 * batch * den) by (nonlinear_arith)
            requires
                den >= 1,
                batch >= 0,
        ;
    }
    let span: u128 = 1000 * batch * den / num;
    let wait: u128 = if span < 1 {
        1
    } else {
        span
    };
    let interval: u128 = if wait > top {
        top
    } else {
        wait
    };
    RateParams { interval_ms: interval as u64, batch_size: batch as u64 }
}

/// How many messages a task may have on their way at once: a tenth of what it sends in a second,
/// rounded up, at least four.
pub open spec fn in_flight_limit(rate: Ratio) -> int {
    larger(
        4,
        smaller(
            quotient_up(rate.numerator as int, 10 * rate.denominator),
            usize::MAX as int,
        ),
    )
}

/// How many messages a task may have on their way at once.
pub fn max_in_flight(msgs_per_sec: Ratio) -> (r: usize)
    requires
        msgs_per_sec.wf(),
        10 * msgs_per_sec.denominator <= u128::MAX,
    ensures
        r == in_flight_limit(msgs_per_sec),
{
    let depth: u128 = divide_up(msgs_per_sec.numerator, 10 * msgs_per_sec.denominator);
    let top: u128 = usize::MAX as u128;
    let depth: u128 = if depth > top {
        top
    } else {
        depth
    };
    if depth < 4 {
        4
    } else {
        depth as usize
    }
}

/// The pace of a positive message rate keeps up with it, and overshoots it by no more than rounding
/// the interval down to whole milliseconds makes it; `schedule` holds that within a cap. The batch
/// is the smallest with which 1000 ticks per second are enough, and one millisecond more between
/// batches would be too slow.
pub proof fn law_rate_is_kept(rate: Ratio)
    requires
        rate.wf(),
        rate.numerator > 0,
        batch_for(rate) <= u64::MAX,
        interval_for(rate, batch_for(rate)) <= u64::MAX,
    ensures
        ({
            let p = rate_params(rate);
            let sent = 1000 * p.batch_size * rate.denominator;
            &&& p.batch_size >= 1
            &&& p.interval_ms >= 1
            &&& p.interval_ms * rate.numerator <= sent
            &&& sent < (p.interval_ms + 1) * rate.numerator
            &&& rate.numerator <= sent
            &&& p.batch_size > 1 ==> 1000 * (p.batch_size - 1) * rate.denominator < rate.numerator
        }),
{
    let p = rate_params(rate);
    let (num, den, batch) = (
        rate.numerator as int,
        rate.denominator as int,
        p.batch_size as int,
    );
    let unit = 1000 * den;
    lemma_quotient_up(num, unit);
    let q = quotient_up(num, unit);
    assert(q >= 1) by (nonlinear_arith)
        requires
            q * unit >= num,
            num > 0,
            unit > 0,
    ;
    assert(1000 * batch * den == batch * unit) by (nonlinear_arith)
        requires
            unit == 1000 * den,
    ;
    assert(1000 * (batch - 1) * den == batch * unit - unit) by (nonlinear_arith)
        requires
            unit == 1000 * den,
    ;
    let sent = 1000 * batch * den;
    assert(num <= sent);
    vstd::arithmetic::div_mod::lemma_fundamental_div_mod(sent, num);
    let span = sent / num;
    assert(span >= 1) by (nonlinear_arith)
        requires
            sent == num * span + sent % num,
            sent % num < num,
            num <= sent,
            num > 0,
    ;
    assert(span * num == num * span) by (nonlinear_arith);
    assert((span + 1) * num == num * span + num) by (nonlinear_arith);
}

/// Up to 1000 messages per second are sent one at a time, more than that in batches.
pub proof fn law_batches_at_high_rates(rate: Ratio)
    requires
        rate.wf(),
    ensures
        rate_params(rate).batch_size == 1 <==> rate.numerator <= 1000 * rate.denominator,
{
    if rate.numerator > 0 {
        let unit = 1000 * rate.denominator;
        let q = quotient_up(rate.numerator as int, unit);
        lemma_quotient_up(rate.numerator as int, unit);
        if rate.numerator <= unit {
            assert(q <= 1) by (nonlinear_arith)
                requires
                    q * unit < rate.numerator + unit,
                    rate.numerator <= unit,
                    unit > 0,
            ;
        } else {
            assert(q > 1) by (nonlinear_arith)
                requires
                    q * unit >= rate.numerator,
                    rate.numerator > unit,
                    unit > 0,
            ;
        }
    }
}

proof fn lemma_quotient_up(a: int, b: int)
    requires
        a >= 0,
        b > 0,
    ensures
        a <= quotient_up(a, b) * b < a + b,
{
    vstd::arithmetic::div_mod::lemma_fundamental_div_mod(a + b - 1, b);
    let q = quotient_up(a, b);
    assert(b * q == q * b) by (nonlinear_arith);
}

/// Whether several tasks at the same pace together send no more than a number of messages per
/// second.
pub open spec fn within_cap(p: RateParams, tasks: nat, max_msg_rate: u64) -> bool {
    tasks * 1000 * p.batch_size <= max_msg_rate * p.interval_ms
}

/// The pace of each of several tasks that send one stream: the pace of their rate, where at that
/// pace the stream keeps within the most messages per second that it may send. Where it does not,
/// the interval is the shortest with which it does.
pub open spec fn capped_pace(rate: Ratio, tasks: nat, max_msg_rate: u64) -> RateParams {
    let p = rate_params(rate);
    if within_cap(p, tasks, max_msg_rate) {
        p
    } else {
        RateParams {
            interval_ms: smaller(
                quotient_up(tasks * 1000 * p.batch_size, max_msg_rate as int),
                u64::MAX as int,
            ) as u64,
            batch_size: p.batch_size,
        }
    }
}

/// The pace of each of several tasks that send one stream of at most so many messages per second.
pub fn schedule(rate: Ratio, tasks: usize, max_msg_rate: u64) -> (r: RateParams)
    requires
        rate.wf(),
        rate.numerator + 1000 * rate.denominator <= u128::MAX,
        tasks > 0,
        max_msg_rate > 0,
    ensures
        r == capped_pace(rate, tasks as nat, max_msg_rate),
        r.batch_size >= 1,
        r.interval_ms >= 1,
        within_cap(r, tasks as nat, max_msg_rate) || r.interval_ms == u64::MAX,
        within_cap(rate_params(rate), tasks as nat, max_msg_rate) ==> r == rate_params(rate),
{
    let p = compute_rate_params(rate);
    proof {
        lemma_capped_pace(rate, tasks as nat, max_msg_rate);
        assert(max_msg_rate * p.interval_ms <= u128::MAX) by (nonlinear_arith)
            requires
                max_msg_rate <= u64::MAX,
                p.interval_ms <= u64::MAX,
        ;
    }
    let allowed: u128 = max_msg_rate as u128 * p.interval_ms as u128;
    let each: u128 = 1000 * tasks as u128;
    assert(tasks * 1000 * p.batch_size == each * p.batch_size);
    match each.checked_mul(p.batch_size as u128) {
        Some(sent) => {
            if sent <= allowed {
                return p;
            }
            let wait: u128 = divide_up(sent, max_msg_rate as u128);
            let top: u128 = u64::MAX as u128;
            let interval: u128 = if wait > top {
                top
            } else {
                wait
            };
            RateParams { interval_ms: interval as u64, batch_size: p.batch_size }
        },
        None => {
            proof {
                let sent = tasks * 1000 * p.batch_size;
                let wait = quotient_up(sent, max_msg_rate as int);
                lemma_quotient_up(sent, max_msg_rate as int);
                assert(wait > u64::MAX) by (nonlinear_arith)
                    requires
                        wait * max_msg_rate >= sent,
                        sent > u128::MAX,
                        max_msg_rate <= u64::MAX,
                ;
            }
            RateParams { interval_ms: u64::MAX, batch_size: p.batch_size }
        },
    }
}

proof fn lemma_capped_pace(rate: Ratio, tasks: nat, max_msg_rate: u64)
    requires
        rate.wf(),
        tasks > 0,
        max_msg_rate > 0,
    ensures
        ({
            let r = capped_pace(rate, tasks, max_msg_rate);
            &&& r.batch_size >= 1
            &&& r.interval_ms >= 1
            &&& r.batch_size == rate_params(rate).batch_size
            &&& within_cap(r, tasks, max_msg_rate) || r.interval_ms == u64::MAX
            &&& tasks * 1000 * r.batch_size <= max_msg_rate * u64::MAX ==> within_cap(
                r,
                tasks,
                max_msg_rate,
            )
        }),
{
    let p = rate_params(rate);
    let r = capped_pace(rate, tasks, max_msg_rate);
    if !within_cap(p, tasks, max_msg_rate) {
        let sent = tasks * 1000 * p.batch_size;
        let wait = quotient_up(sent, max_msg_rate as int);
        assert(sent >= 1) by (nonlinear_arith)
            requires
                sent == tasks * 1000 * p.batch_size,
                tasks > 0,
                p.batch_size > 0,
        ;
        lemma_quotient_up(sent, max_msg_rate as int);
        assert(wait >= 1) by (nonlinear_arith)
            requires
                wait * max_msg_rate >= sent,
                sent >= 1,
                max_msg_rate > 0,
        ;
        assert(wait * max_msg_rate == max_msg_rate * wait) by (nonlinear_arith);
        if sent <= max_msg_rate * u64::MAX {
            assert(wait <= u64::MAX) by (nonlinear_arith)
                requires
                    wait * max_msg_rate < sent + max_msg_rate,
                    sent <= max_msg_rate * u64::MAX,
                    max_msg_rate > 0,
            ;
        }
    }
}

/// The messages that a task sends in its first milliseconds: a batch at once, and one more each
/// time the interval has passed.
pub open spec fn sent_within(p: RateParams, ms: nat) -> nat {
    p.batch_size as nat * (ms / p.interval_ms as nat + 1)
}

/// The tasks of a stream together never send more than the stream may, but for their first batches.
/// Left out are numbers of tasks so large that no interval of 64 bits is long enough for them.
pub proof fn law_cap_is_kept(rate: Ratio, tasks: nat, max_msg_rate: u64, ms: nat)
    requires
        rate.wf(),
        tasks > 0,
        max_msg_rate > 0,
        tasks * 1000 * rate_params(rate).batch_size <= max_msg_rate * u64::MAX,
    ensures
        ({
            let p = capped_pace(rate, tasks, max_msg_rate);
            1000 * (tasks * sent_within(p, ms)) <= max_msg_rate * ms + 1000 * (tasks
                * p.batch_size)
        }),
{
    lemma_capped_pace(rate, tasks, max_msg_rate);
    let p = capped_pace(rate, tasks, max_msg_rate);
    let (n, i) = (ms / p.interval_ms as nat, p.interval_ms as nat);
    vstd::arithmetic::div_mod::lemma_fundamental_div_mod(ms as int, i as int);
    assert(n * i <= ms) by (nonlinear_arith)
        requires
            ms == i * n + ms % i,
            i > 0,
            ms >= 0,
    ;
    let each = tasks * 1000 * p.batch_size;
    assert(each * n <= max_msg_rate * ms) by (nonlinear_arith)
        requires
            each <= max_msg_rate * i,
            n * i <= ms,
            n >= 0,
            max_msg_rate >= 0,
    ;
    assert(1000 * (tasks * (p.batch_size as nat * (n + 1))) == each * n + 1000 * (tasks
        * p.batch_size)) by (nonlinear_arith)
        requires
            each == tasks * 1000 * p.batch_size,
    ;
}

/// What the send loop does next.
#[derive(Debug, Clone, Copy, PartialEq, Eq, Structural)]
pub enum PaceAction {
    /// The run is over.
    Stop,
    /// Wait for the next tick.
    WaitTick,
    /// Send the message with this sequence number.
    Send { seq: u64 },
}

/// What happened to the send loop.
pub enum PaceEvent {
    /// It asked what to do next; the flag says whether the run's time was over.
    Next(bool),
    /// The message was handed over.
    Sent,
    /// Nobody takes messages at the moment.
    Abandoned,
}

/// The state of a send loop: one batch after each tick, until the time is over.
#[derive(Debug, Clone, Copy, PartialEq, Eq, Structural)]
pub struct Pacer {
    pub batch_size: u64,
    /// The sequence number of the next message, which is also the number of messages sent.
    pub seq: u64,
    /// Messages left in the current batch.
    pub left: u64,
}

impl Pacer {
    /// No more is left of a batch than it holds.
    pub open spec fn wf(self) -> bool {
        self.left <= self.batch_size
    }

    /// The state and the action after asking what to do.
    pub open spec fn after_next(self, expired: bool) -> (Pacer, PaceAction) {
        if expired {
            (self, PaceAction::Stop)
        } else if self.left > 0 {
            (self, PaceAction::Send { seq: self.seq })
        } else {
            (Pacer { left: self.batch_size, ..self }, PaceAction::WaitTick)
        }
    }

    /// The state after an event.
    pub open spec fn after(self, event: PaceEvent) -> Pacer {
        match event {
            PaceEvent::Next(expired) => self.after_next(expired).0,
            PaceEvent::Sent => Pacer {
                seq: (self.seq + 1) as u64,
                left: (self.left - 1) as u64,
                ..self
            },
            PaceEvent::Abandoned => Pacer { left: 0, ..self },
        }
    }

    /// Whether an event can come: a message is sent only where one is due.
    pub open spec fn allows(self, event: PaceEvent) -> bool {
        event is Sent ==> self.left > 0 && self.seq < u64::MAX
    }

    /// Before the first tick.
    pub fn new(batch_size: u64) -> (p: Pacer)
        ensures
            p.wf(),
            p == (Pacer { batch_size, seq: 0, left: 0 }),
    {
        Pacer { batch_size, seq: 0, left: 0 }
    }

    /// What to do next, given whether the time is over.
    pub fn next_action(&mut self, expired: bool) -> (r: PaceAction)
        requires
            old(self).wf(),
        ensures
            final(self).wf(),
            (*final(self), r) == old(self).after_next(expired),
    {
        if expired {
            PaceAction::Stop
        } else if self.left > 0 {
            PaceAction::Send { seq: self.seq }
        } else {
            self.left = self.batch_size;
            PaceAction::WaitTick
        }
    }

    /// Notes that the message that was due has been handed over.
    pub fn sent(&mut self)
        requires
            old(self).wf(),
            old(self).left > 0,
            old(self).seq < u64::MAX,
        ensures
            final(self).wf(),
            *final(self) == old(self).after(PaceEvent::Sent),
    {
        self.seq = self.seq + 1;
        self.left = self.left - 1;
    }

    /// Gives up the rest of the batch, without the message that was due.
    pub fn abandon_batch(&mut self)
        requires
            old(self).wf(),
        ensures
            final(self).wf(),
            *final(self) == old(self).after(PaceEvent::Abandoned),
    {
        self.left = 0;
    }
}

/// The state after a number of events.
pub open spec fn pace(p: Pacer, events: Seq<PaceEvent>) -> Pacer
    decreases events.len(),
{
    if events.len() == 0 {
        p
    } else {
        pace(p, events.drop_last()).after(events.last())
    }
}

/// Whether the events can come in this order.
pub open spec fn can_pace(p: Pacer, events: Seq<PaceEvent>) -> bool
    decreases events.len(),
{
    events.len() == 0 || can_pace(p, events.drop_last()) && pace(p, events.drop_last()).allows(
        events.last(),
    )
}

/// How many of the events are messages sent.
pub open spec fn count_sent(events: Seq<PaceEvent>) -> nat
    decreases events.len(),
{
    if events.len() == 0 {
        0
    } else {
        count_sent(events.drop_last()) + if events.last() is Sent {
            1nat
        } else {
            0nat
        }
    }
}

/// Messages are numbered one after another: the next number is always the count of those sent.
pub proof fn law_sequence_numbers_count_messages(p: Pacer, events: Seq<PaceEvent>)
    requires
        can_pace(p, events),
    ensures
        pace(p, events).seq == p.seq + count_sent(events),
        pace(p, events).batch_size == p.batch_size,
    decreases events.len(),
{
    if events.len() > 0 {
        law_sequence_numbers_count_messages(p, events.drop_last());
    }
}

/// Without a new tick no more than the rest of the batch is sent, and what was not sent of it is
/// still due unless it was given up.
pub proof fn law_one_batch_per_tick(p: Pacer, events: Seq<PaceEvent>)
    requires
        can_pace(p, events),
        forall|i: int|
            0 <= i < events.len() && (#[trigger] events[i]) is Next ==> pace(
                p,
                events.take(i),
            ).after_next(events[i]->Next_0).1 != PaceAction::WaitTick,
    ensures
        count_sent(events) + pace(p, events).left <= p.left,
        (forall|i: int| 0 <= i < events.len() ==> !((#[trigger] events[i]) is Abandoned)) ==> (
        count_sent(events) + pace(p, events).left == p.left),
    decreases events.len(),
{
    if events.len() > 0 {
        let before = events.drop_last();
        assert forall|i: int| 0 <= i < before.len() && (#[trigger] before[i]) is Next implies pace(
            p,
            before.take(i),
        ).after_next(before[i]->Next_0).1 != PaceAction::WaitTick by {
            assert(before[i] == events[i]);
            assert(before.take(i) =~= events.take(i));
        }
        law_one_batch_per_tick(p, before);
        assert(forall|i: int| 0 <= i < before.len() ==> before[i] == events[i]);
        assert(events.take(events.len() - 1) =~= before);
        assert(events[events.len() - 1] == events.last());
    }
}

/// Whether a message that could not be queued should be tried again: it should where the queue was
/// full, so that the producer slows down instead of dropping messages.
pub fn should_retry_enqueue(error: &str) -> (r: bool)
    ensures
        r == contains_text(error@, "QueueFull"@),
{
    holds_text(error, "QueueFull")
}

/// What came through since the last report.
#[derive(Debug, Clone, Copy, PartialEq, Eq, Structural)]
pub struct Progress {
    pub bytes: u64,
    /// The same in whole mebibytes, rounded down.
    pub mib: u64,
    /// The throughput in gigabits per second: bits per nanosecond.
    pub gbps: Ratio,
}

/// What a throughput reporter does after a tick.
#[derive(Debug, Clone, Copy, PartialEq, Eq, Structural)]
pub enum ReportAction {
    /// The run is over.
    Stop,
    /// No time has passed, so that there is no throughput to print.
    Skip,
    /// Print what came through.
    Print(Progress),
}

/// Measures the throughput between reports.
#[derive(Debug, Clone, Copy, PartialEq, Eq, Structural)]
pub struct ThroughputMeter {
    /// The count of bytes at the last report.
    pub last_bytes: u64,
}

/// What came through between two counts of bytes in the given time.
pub open spec fn progress(last_bytes: u64, now_bytes: u64, elapsed_ns: u64) -> Progress {
    let bytes = (now_bytes - last_bytes) as u64;
    Progress {
        bytes,
        mib: bytes / 1_048_576,
        gbps: Ratio { numerator: (bytes * 8) as u128, denominator: elapsed_ns as u128 },
    }
}

impl ThroughputMeter {
    /// The state and the action after a tick.
    pub open spec fn after_tick(self, expired: bool, now_bytes: u64, elapsed_ns: u64) -> (
        ThroughputMeter,
        ReportAction,
    ) {
        if expired {
            (self, ReportAction::Stop)
        } else {
            (
                ThroughputMeter { last_bytes: now_bytes },
                if elapsed_ns == 0 {
                    ReportAction::Skip
                } else {
                    ReportAction::Print(progress(self.last_bytes, now_bytes, elapsed_ns))
                },
            )
        }
    }

    /// Before anything came through. There is nothing to measure where reports are switched off,
    /// which an interval of 0 does.
    pub fn new(report_interval_secs: u64) -> (r: Option<ThroughputMeter>)
        ensures
            r == if report_interval_secs == 0 {
                None
            } else {
                Some(ThroughputMeter { last_bytes: 0 })
            },
    {
        if report_interval_secs == 0 {
            None
        } else {
            Some(ThroughputMeter { last_bytes: 0 })
        }
    }

    /// What to do after a tick, given whether the time is over, the count of bytes so far, and the
    /// time since the last report.
    pub fn tick(&mut self, expired: bool, now_bytes: u64, elapsed_ns: u64) -> (r: ReportAction)
        requires
            now_bytes >= old(self).last_bytes,
        ensures
            (*final(self), r) == old(self).after_tick(expired, now_bytes, elapsed_ns),
    {
        if expired {
            return ReportAction::Stop;
        }
        let bytes: u64 = now_bytes - self.last_bytes;
        self.last_bytes = now_bytes;
        if elapsed_ns == 0 {
            return ReportAction::Skip;
        }
        ReportAction::Print(
            Progress {
                bytes,
                mib: bytes / 1_048_576,
                gbps: Ratio { numerator: bytes as u128 * 8, denominator: elapsed_ns as u128 },
            },
        )
    }
}

/// A count of bytes and the time since the one before.
pub struct Reading {
    pub bytes: u64,
    pub elapsed_ns: u64,
}

/// Whether the counts grow, from a first one on.
pub open spec fn readings_grow(first: u64, readings: Seq<Reading>) -> bool
    decreases readings.len(),
{
    readings.len() == 0 || readings_grow(first, readings.drop_last()) && last_count(
        first,
        readings.drop_last(),
    ) <= readings.last().bytes
}

/// The last of the counts.
pub open spec fn last_count(first: u64, readings: Seq<Reading>) -> u64 {
    if readings.len() == 0 {
        first
    } else {
        readings.last().bytes
    }
}

/// The bytes that the reports say came through, over all of them.
pub open spec fn reported(first: u64, readings: Seq<Reading>) -> int
    decreases readings.len(),
{
    if readings.len() == 0 {
        0
    } else {
        let before = readings.drop_last();
        let meter = ThroughputMeter { last_bytes: last_count(first, before) };
        let (_, action) = meter.after_tick(
            false,
            readings.last().bytes,
            readings.last().elapsed_ns,
        );
        reported(first, before) + match action {
            ReportAction::Print(p) => p.bytes as int,
            _ => 0,
        }
    }
}

/// No byte is reported twice and none is left out, as long as time passes between the reports.
pub proof fn law_reports_add_up(first: u64, readings: Seq<Reading>)
    requires
        readings_grow(first, readings),
        forall|i: int| 0 <= i < readings.len() ==> (#[trigger] readings[i]).elapsed_ns > 0,
    ensures
        reported(first, readings) == last_count(first, readings) - first,
    decreases readings.len(),
{
    if readings.len() > 0 {
        let before = readings.drop_last();
        assert(forall|i: int| 0 <= i < before.len() ==> before[i] == readings[i]);
        assert(readings.last() == readings[readings.len() - 1]);
        law_reports_add_up(first, before);
    }
}

/// With 1000 ticks per second a batch is enough for the rate.
pub proof fn lemma_batch_is_enough(rate: Ratio)
    requires
        rate.wf(),
        rate.numerator > 0,
        rate_params(rate).batch_size < u64::MAX,
    ensures
        rate.numerator <= 1000 * rate_params(rate).batch_size * rate.denominator,
{
    let (num, unit, batch) = (
        rate.numerator as int,
        1000 * rate.denominator,
        rate_params(rate).batch_size as int,
    );
    let q = quotient_up(num, unit);
    lemma_quotient_up(num, unit);
    assert(batch >= q);
    assert(1000 * batch * rate.denominator == batch * unit) by (nonlinear_arith)
        requires
            unit == 1000 * rate.denominator,
    ;
    assert(batch * unit >= num) by (nonlinear_arith)
        requires
            q * unit >= num,
            batch >= q,
            unit > 0,
    ;
}

/// A pace that is slowed down for the cap is slowed down no more than needed: one millisecond less
/// between batches would exceed it. The batches stay as they were.
pub proof fn law_cap_costs_no_more_than_needed(rate: Ratio, tasks: nat, max_msg_rate: u64)
    requires
        rate.wf(),
        tasks > 0,
        max_msg_rate > 0,
    ensures
        ({
            let (free, p) = (rate_params(rate), capped_pace(rate, tasks, max_msg_rate));
            &&& p.batch_size == free.batch_size
            &&& p.interval_ms >= free.interval_ms
            &&& p.interval_ms > free.interval_ms ==> tasks * 1000 * p.batch_size > max_msg_rate * (
            p.interval_ms - 1)
            &&& tasks * 1000 * free.batch_size <= max_msg_rate * free.interval_ms ==> p == free
        }),
{
    let (free, p) = (rate_params(rate), capped_pace(rate, tasks, max_msg_rate));
    if !within_cap(free, tasks, max_msg_rate) {
        let sent = tasks * 1000 * free.batch_size;
        let wait = quotient_up(sent, max_msg_rate as int);
        assert(sent >= 0) by (nonlinear_arith)
            requires
                sent == tasks * 1000 * free.batch_size,
        ;
        lemma_quotient_up(sent, max_msg_rate as int);
        assert(wait > free.interval_ms) by (nonlinear_arith)
            requires
                wait * max_msg_rate >= sent,
                sent > max_msg_rate * free.interval_ms,
                max_msg_rate > 0,
        ;
        assert(max_msg_rate * (wait - 1) < sent) by (nonlinear_arith)
            requires
                wait * max_msg_rate < sent + max_msg_rate,
        ;
        assert(max_msg_rate * (p.interval_ms - 1) <= max_msg_rate * (wait - 1)) by (nonlinear_arith)
            requires
                p.interval_ms <= wait,
                max_msg_rate > 0,
        ;
    }
}

/// The messages on their way are four, or the least number that is a tenth of what is sent in a
/// second, whichever is more.
pub proof fn law_in_flight_is_a_tenth(rate: Ratio)
    requires
        rate.wf(),
    ensures
        in_flight_limit(rate) >= 4,
        in_flight_limit(rate) < usize::MAX ==> 10 * rate.denominator * in_flight_limit(rate)
            >= rate.numerator,
        in_flight_limit(rate) > 4 ==> 10 * rate.denominator * (in_flight_limit(rate) - 1)
            < rate.numerator,
{
    let (a, b) = (rate.numerator as int, 10 * rate.denominator);
    let q = quotient_up(a, b);
    let limit = in_flight_limit(rate);
    lemma_quotient_up(a, b);
    if limit < usize::MAX {
        assert(b * limit >= a) by (nonlinear_arith)
            requires
                q * b >= a,
                limit >= q,
                b > 0,
        ;
    }
    if limit > 4 {
        assert(b * (limit - 1) < a) by (nonlinear_arith)
            requires
                q * b < a + b,
                limit <= q,
                b > 0,
        ;
    }
}

/// The send loop stops when the time is over, sends what is due with the next number, and otherwise
/// waits for a tick, which makes a whole batch due.
pub proof fn law_send_loop(p: Pacer)
    ensures
        p.after_next(true) == (p, PaceAction::Stop),
        p.left > 0 ==> p.after_next(false) == (p, PaceAction::Send { seq: p.seq }),
        p.left == 0 ==> p.after_next(false).1 == PaceAction::WaitTick && p.after_next(false).0.left
            == p.batch_size,
        p.after_next(false).0.seq == p.seq && p.after_next(false).0.batch_size == p.batch_size,
        p.left > 0 && p.seq < u64::MAX ==> p.after(PaceEvent::Sent).seq == p.seq + 1 && p.after(
            PaceEvent::Sent,
        ).left == p.left - 1,
        p.after(PaceEvent::Abandoned).left == 0 && p.after(PaceEvent::Abandoned).seq == p.seq,
{
}

/// What a throughput report says: the bytes since the last one, the same in whole mebibytes, and a
/// throughput that times the time gives the bits.
pub proof fn law_progress(m: ThroughputMeter, now_bytes: u64, elapsed_ns: u64)
    requires
        now_bytes >= m.last_bytes,
    ensures
        m.after_tick(true, now_bytes, elapsed_ns) == (m, ReportAction::Stop),
        m.after_tick(false, now_bytes, elapsed_ns).0.last_bytes == now_bytes,
        elapsed_ns == 0 ==> m.after_tick(false, now_bytes, elapsed_ns).1 == ReportAction::Skip,
        elapsed_ns > 0 ==> {
            &&& m.after_tick(false, now_bytes, elapsed_ns).1 matches ReportAction::Print(p)
            &&& p.bytes == now_bytes - m.last_bytes
            &&& p.mib * 1_048_576 <= p.bytes < (p.mib + 1) * 1_048_576
            &&& p.gbps.denominator > 0
            &&& p.gbps.numerator * elapsed_ns == 8 * p.bytes * p.gbps.denominator
        },
{
    if elapsed_ns > 0 {
        let p = progress(m.last_bytes, now_bytes, elapsed_ns);
        assert(p.gbps.numerator * elapsed_ns == 8 * p.bytes * p.gbps.denominator)
            by (nonlinear_arith)
            requires
                p.gbps.numerator == p.bytes * 8,
                p.gbps.denominator == elapsed_ns,
        ;
    }
}

/// No rate at all is kept as one message per second. Every rate between one message in 2^52 seconds
/// and 2^64 - 1 messages per second is kept: with the smallest batch that 1000 ticks per second
/// allow, and the longest interval that is not too long.
pub proof fn law_ordinary_rates_are_kept(rate: Ratio)
    requires
        rate.wf(),
        rate.numerator == 0 || rate.denominator <= 0x10_0000_0000_0000 * rate.numerator,
        rate.numerator <= 0xffff_ffff_ffff_ffff * rate.denominator,
    ensures
        ({
            let p = rate_params(rate);
            let sent = 1000 * p.batch_size * rate.denominator;
            &&& rate.numerator == 0 ==> p.interval_ms == 1000 && p.batch_size == 1
            &&& rate.numerator > 0 ==> {
                &&& p.batch_size >= 1
                &&& p.interval_ms >= 1
                &&& p.interval_ms * rate.numerator <= sent < (p.interval_ms + 1) * rate.numerator
                &&& p.batch_size > 1 ==> 1000 * (p.batch_size - 1) * rate.denominator
                    < rate.numerator
            }
        }),
{
    if rate.numerator > 0 {
        let (num, den) = (rate.numerator as int, rate.denominator as int);
        let (unit, batch) = (1000 * den, batch_for(rate));
        let q = quotient_up(num, unit);
        lemma_quotient_up(num, unit);
        assert(q <= 0xffff_ffff_ffff_ffff) by (nonlinear_arith)
            requires
                q * unit < num + unit,
                num <= 0xffff_ffff_ffff_ffff * den,
                unit == 1000 * den,
                den > 0,
        ;
        let sent = 1000 * batch * den;
        let span = sent / num;
        assert(sent == batch * unit) by (nonlinear_arith)
            requires
                sent == 1000 * batch * den,
                unit == 1000 * den,
        ;
        vstd::arithmetic::div_mod::lemma_fundamental_div_mod(sent, num);
        if batch == 1 {
            assert(span <= 1000 * 0x10_0000_0000_0000) by (nonlinear_arith)
                requires
                    sent == num * span + sent % num,
                    sent % num >= 0,
                    sent == 1000 * den,
                    den <= 0x10_0000_0000_0000 * num,
                    num > 0,
            ;
        } else {
            assert(span <= 1) by (nonlinear_arith)
                requires
                    sent == num * span + sent % num,
                    sent % num >= 0,
                    sent == batch * unit,
                    batch * unit < num + unit,
                    batch >= 2,
                    num > 0,
            ;
        }
        law_rate_is_kept(rate);
    }
}

} // verus!
