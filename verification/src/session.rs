//! How a consumer task takes what a broker delivers, and the names that connections go by.
use crate::config::Config;
use crate::loss::{receive_all, Arrival};
use crate::message::decoded;
use crate::stats::{law_counters_take_what_fits, StatsView};
use crate::table::StatsTable;
use crate::text::{
    decimal, law_decimal_reads_back, lemma_decimal_digits, parsed_number, push_decimal,
};
use vstd::prelude::*;
use vstd::string::StringExecFns;

verus! {

/// What comes of waiting for the next message.
#[derive(Debug, Clone, Copy)]
pub enum Delivery<'a> {
    /// A message of a topic, with its payload where it has one, and the time of its arrival.
    Message { topic: &'a str, payload: Option<&'a [u8]>, recv_ns: u64 },
    /// The broker reports an error.
    Failed,
    /// Nothing came for a while.
    Idle,
    /// Nothing will come any more.
    Closed,
}

/// The bytes that a delivery brings, whether or not its topic is known.
pub open spec fn delivered_bytes(d: Delivery) -> nat {
    match d {
        Delivery::Message { payload: Some(data), .. } => data@.len(),
        _ => 0,
    }
}

/// The statistics after a delivery. Only a message with a payload, of a topic that has statistics,
/// changes them.
pub open spec fn delivered(table: Map<Seq<char>, StatsView>, d: Delivery) -> Map<
    Seq<char>,
    StatsView,
> {
    match d {
        Delivery::Message { topic, payload: Some(data), recv_ns } => if table.contains_key(topic@) {
            table.insert(topic@, table[topic@].receive(data@, recv_ns))
        } else {
            table
        },
        _ => table,
    }
}

/// Whether the counters can take a delivery.
pub open spec fn can_deliver(table: Map<Seq<char>, StatsView>, d: Delivery) -> bool {
    match d {
        Delivery::Message { topic, payload: Some(data), .. } => table.contains_key(topic@)
            ==> table[topic@].can_receive(data@),
        _ => true,
    }
}

/// The state of a consumer task.
#[derive(Debug)]
pub struct TaskReader {
    pub table: StatsTable,
    /// Whether the broker has said that nothing will come any more.
    pub closed: bool,
}

impl TaskReader {
    /// The statistics are well-formed.
    pub open spec fn wf(self) -> bool {
        self.table.wf()
    }

    /// A task that reads the given topics, before anything has come.
    pub fn new(topics: &Vec<String>) -> (r: TaskReader)
        ensures
            r.wf(),
            !r.closed,
            forall|t: Seq<char>| #[trigger]
                r.table@.contains_key(t) <==> exists|i: int|
                    0 <= i < topics@.len() && (#[trigger] topics@[i])@ == t,
            forall|t: Seq<char>| #[trigger]
                r.table@.contains_key(t) ==> r.table@[t] == StatsView::fresh(),
    {
        TaskReader { table: StatsTable::with_topics(topics), closed: false }
    }

    /// Whether to wait for another message, given whether the time is over.
    pub fn keeps_reading(&self, expired: bool) -> (r: bool)
        ensures
            r == (!expired && !self.closed),
    {
        !expired && !self.closed
    }

    /// Whether the counters can take a delivery.
    pub fn can_handle(&self, d: &Delivery) -> (r: bool)
        requires
            self.wf(),
        ensures
            r == can_deliver(self.table@, *d),
    {
        match d {
            Delivery::Message { topic, payload: Some(data), .. } => self.table.can_record(
                topic,
                data,
            ),
            _ => true,
        }
    }

    /// Takes a delivery, and says how many bytes it brought.
    pub fn handle(&mut self, d: &Delivery) -> (bytes: u64)
        requires
            old(self).wf(),
            can_deliver(old(self).table@, *d),
        ensures
            final(self).wf(),
            final(self).table@ == delivered(old(self).table@, *d),
            final(self).closed == (old(self).closed || *d is Closed),
            bytes == delivered_bytes(*d),
    {
        match d {
            Delivery::Message { topic, payload: Some(data), recv_ns } => {
                self.table.record(topic, data, *recv_ns);
                data.len() as u64
            },
            Delivery::Closed => {
                self.closed = true;
                0
            },
            _ => 0,
        }
    }
}

/// The statistics after a number of deliveries.
pub open spec fn delivered_all(table: Map<Seq<char>, StatsView>, ds: Seq<Delivery>) -> Map<
    Seq<char>,
    StatsView,
>
    decreases ds.len(),
{
    if ds.len() == 0 {
        table
    } else {
        delivered(delivered_all(table, ds.drop_last()), ds.last())
    }
}

/// What the deliveries bring of one topic.
pub open spec fn arrivals_on(ds: Seq<Delivery>, t: Seq<char>) -> Seq<Arrival>
    decreases ds.len(),
{
    if ds.len() == 0 {
        Seq::empty()
    } else {
        let before = arrivals_on(ds.drop_last(), t);
        match ds.last() {
            Delivery::Message { topic, payload: Some(data), recv_ns } => if topic@ == t {
                before.push(Arrival { data: data@, recv_ns })
            } else {
                before
            },
            _ => before,
        }
    }
}

/// Each topic of a task has the statistics of its own messages, whatever else is delivered in
/// between, and no topic is added.
pub proof fn law_each_topic_has_its_own_statistics(
    table: Map<Seq<char>, StatsView>,
    ds: Seq<Delivery>,
    t: Seq<char>,
)
    ensures
        delivered_all(table, ds).contains_key(t) <==> table.contains_key(t),
        table.contains_key(t) ==> delivered_all(table, ds)[t] == receive_all(
            table[t],
            arrivals_on(ds, t),
        ),
    decreases ds.len(),
{
    if ds.len() > 0 {
        law_each_topic_has_its_own_statistics(table, ds.drop_last(), t);
        let before = arrivals_on(ds.drop_last(), t);
        if let Delivery::Message { topic, payload: Some(data), recv_ns } = ds.last() {
            if topic@ == t {
                assert(arrivals_on(ds, t).drop_last() =~= before);
            }
        }
    }
}

/// The consumer group of a task.
pub open spec fn group_text(run_id: Seq<char>, task: nat) -> Seq<char> {
    "bench-"@ + run_id + "-"@ + decimal(task)
}

/// The name of the consumer group of a task.
pub fn consumer_group(c: &Config, task: usize) -> (r: String)
    ensures
        r@ == group_text(c.run_id@, task as nat),
        r@ == "bench-"@ + c.run_id@ + "-"@ + decimal(task as nat),
{
    let mut r = String::new();
    r.append("bench-");
    assert(r@ =~= "bench-"@);
    r.append(c.run_id.as_str());
    r.append("-");
    push_decimal(&mut r, task as u128);
    r
}

/// No two tasks of a run share a consumer group.
pub proof fn law_groups_differ(run_id: Seq<char>, a: nat, b: nat)
    ensures
        group_text(run_id, a) == group_text(run_id, b) <==> a == b,
{
    lemma_decimal_digits(a);
    lemma_decimal_digits(b);
    let start = "bench-"@ + run_id + "-"@;
    if group_text(run_id, a) == group_text(run_id, b) {
        assert(group_text(run_id, a).skip(start.len() as int) =~= decimal(a));
        assert(group_text(run_id, b).skip(start.len() as int) =~= decimal(b));
    }
}

/// The address that a producer calls a server at.
pub fn server_url(c: &Config) -> (r: String)
    ensures
        r@ == "http://"@ + c.broker_endpoint@,
{
    let mut r = String::new();
    r.append("http://");
    assert(r@ =~= "http://"@);
    r.append(c.broker_endpoint.as_str());
    r
}

/// For how many seconds a server stays up: for the run, the delay before it, and 10 seconds more.
pub open spec fn lifetime_secs(c: Config) -> int {
    c.run_duration_secs + c.producer_start_delay_secs + 10
}

/// For how many seconds a server stays up: for the run, the delay before it, and 10 seconds more.
/// `None` where that does not fit in 64 bits.
pub fn server_lifetime_secs(c: &Config) -> (r: Option<u64>)
    ensures
        r is Some <==> lifetime_secs(*c) <= u64::MAX,
        r matches Some(secs) ==> secs == lifetime_secs(*c),
        r is Some <==> c.run_duration_secs + c.producer_start_delay_secs + 10 <= u64::MAX,
        r matches Some(secs) ==> secs == c.run_duration_secs + c.producer_start_delay_secs + 10,
{
    match c.run_duration_secs.checked_add(c.producer_start_delay_secs) {
        Some(secs) => secs.checked_add(10),
        None => None,
    }
}

/// A message with a payload, of a topic that a task reads, counts once for that topic and for no
/// other, with all its bytes. Everything else leaves the statistics as they are.
pub proof fn law_delivery(table: Map<Seq<char>, StatsView>, d: Delivery, t: Seq<char>)
    requires
        table.contains_key(t),
        can_deliver(table, d),
    ensures
        delivered(table, d).dom() == table.dom(),
        match d {
            Delivery::Message { topic, payload: Some(data), .. } => {
                &&& topic@ != t ==> delivered(table, d)[t] == table[t]
                &&& topic@ == t ==> delivered(table, d)[t].received == table[t].received + 1
                &&& topic@ == t ==> delivered(table, d)[t].bytes == table[t].bytes + data@.len()
                &&& delivered_bytes(d) == data@.len()
            },
            _ => delivered(table, d) == table && delivered_bytes(d) == 0,
        },
{
    assert(delivered(table, d).dom() =~= table.dom());
}

/// A task can take every delivery, but for a message of a topic that it reads whose counts would no
/// longer fit in 64 bits, or that has the last number of all.
pub proof fn law_deliveries_are_taken(table: Map<Seq<char>, StatsView>, d: Delivery)
    requires
        forall|t: Seq<char>| #[trigger]
            table.contains_key(t) ==> table[t].received <= u64::MAX && table[t].bytes <= u64::MAX
                && table[t].lost <= u64::MAX,
    ensures
        can_deliver(table, d) <==> match d {
            Delivery::Message { topic, payload: Some(data), .. } => table.contains_key(topic@) ==> {
                let after = delivered(table, d)[topic@];
                &&& after.received <= 0xffff_ffff_ffff_ffff
                &&& after.bytes <= 0xffff_ffff_ffff_ffff
                &&& after.lost <= 0xffff_ffff_ffff_ffff
                &&& decoded(data@) matches Some(h) ==> h.seq < 0xffff_ffff_ffff_ffff
            },
            _ => true,
        },
{
    if let Delivery::Message { topic, payload: Some(data), recv_ns } = d {
        if table.contains_key(topic@) {
            law_counters_take_what_fits(table[topic@], data@, recv_ns);
        }
    }
}

/// The parts of the name of a consumer group: it begins with `bench-`, then come the run id and a
/// hyphen, and the number of the task is read back from what is behind.
pub proof fn law_parts_of_a_group(run_id: Seq<char>, task: nat)
    ensures
        ({
            let g = group_text(run_id, task);
            let n = run_id.len() as int;
            &&& g.take(6) == "bench-"@
            &&& g.subrange(6, 6 + n) == run_id
            &&& g[6 + n] == '-'
            &&& parsed_number(g.skip(7 + n), task) == Some(task)
        }),
{
    reveal_strlit("bench-");
    reveal_strlit("-");
    law_decimal_reads_back(task, task);
    let g = group_text(run_id, task);
    let n = run_id.len() as int;
    assert(g.take(6) =~= "bench-"@);
    assert(g.subrange(6, 6 + n) =~= run_id);
    assert(g.skip(7 + n) =~= decimal(task));
}

/// The same task of two runs has two consumer groups, unless the runs have the same id.
pub proof fn law_groups_of_two_runs_differ(a: Seq<char>, b: Seq<char>, task: nat)
    ensures
        group_text(a, task) == group_text(b, task) <==> a == b,
{
    law_parts_of_a_group(a, task);
    law_parts_of_a_group(b, task);
}

/// A server outlives the run and the delay before it by ten seconds, whatever they are.
pub proof fn law_server_outlives_the_run(c: Config)
    ensures
        lifetime_secs(c) - c.run_duration_secs - c.producer_start_delay_secs == 10,
{
}

} // verus!
