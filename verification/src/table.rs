//! Statistics by topic, and what the topics of a stream add up to.
use crate::config::BrokerType;
use crate::stats::{StatsView, StreamStats};
use crate::streams::{topic_name, topic_text};
use crate::text::{decimal, same_text};
use vstd::prelude::*;

verus! {

/// The statistics of one topic.
#[derive(Debug)]
pub struct TopicStats {
    pub topic: String,
    pub stats: StreamStats,
}

/// Statistics by topic.
#[derive(Debug)]
pub struct StatsTable {
    pub entries: Vec<TopicStats>,
}

/// The statistics that a list of entries holds for each topic.
pub open spec fn by_topic(entries: Seq<TopicStats>) -> Map<Seq<char>, StatsView>
    decreases entries.len(),
{
    if entries.len() == 0 {
        Map::empty()
    } else {
        by_topic(entries.drop_last()).insert(entries.last().topic@, entries.last().stats@)
    }
}

/// The statistics of a topic; those of nothing where the table has none.
pub open spec fn stats_or_fresh<K>(m: Map<K, StatsView>, key: K) -> StatsView {
    if m.contains_key(key) {
        m[key]
    } else {
        StatsView::fresh()
    }
}

/// The statistics of two tables, merged topic by topic.
pub open spec fn merged_tables(
    a: Map<Seq<char>, StatsView>,
    b: Map<Seq<char>, StatsView>,
) -> Map<Seq<char>, StatsView> {
    Map::new(
        |t: Seq<char>| a.contains_key(t) || b.contains_key(t),
        |t: Seq<char>|
            if b.contains_key(t) {
                stats_or_fresh(a, t).merge(b[t])
            } else {
                a[t]
            },
    )
}

/// The messages that a list of entries counts.
pub open spec fn received_by(entries: Seq<TopicStats>) -> nat
    decreases entries.len(),
{
    if entries.len() == 0 {
        0
    } else {
        received_by(entries.drop_last()) + entries.last().stats@.received
    }
}

proof fn lemma_by_topic(entries: Seq<TopicStats>, t: Seq<char>)
    ensures
        by_topic(entries).contains_key(t) <==> exists|i: int|
            0 <= i < entries.len() && (#[trigger] entries[i]).topic@ == t,
    decreases entries.len(),
{
    if entries.len() > 0 {
        let before = entries.drop_last();
        lemma_by_topic(before, t);
        if by_topic(before).contains_key(t) {
            let i = choose|i: int| 0 <= i < before.len() && (#[trigger] before[i]).topic@ == t;
            assert(entries[i] == before[i]);
        }
        if exists|i: int| 0 <= i < entries.len() && (#[trigger] entries[i]).topic@ == t {
            let i = choose|i: int| 0 <= i < entries.len() && (#[trigger] entries[i]).topic@ == t;
            if i < before.len() {
                assert(before[i] == entries[i]);
            }
        }
        assert(entries.last() == entries[entries.len() - 1]);
    }
}

/// Whether no topic occurs twice.
pub open spec fn distinct_topics(entries: Seq<TopicStats>) -> bool {
    forall|i: int, j: int|
        0 <= i < j < entries.len() ==> (#[trigger] entries[i]).topic@ != (
        #[trigger] entries[j]).topic@
}

proof fn lemma_distinct_prefix(entries: Seq<TopicStats>)
    requires
        distinct_topics(entries),
        entries.len() > 0,
    ensures
        distinct_topics(entries.drop_last()),
        forall|i: int|
            0 <= i < entries.len() - 1 ==> (#[trigger] entries[i]).topic@ != entries.last().topic@,
{
    let before = entries.drop_last();
    assert forall|i: int, j: int| 0 <= i < j < before.len() implies (#[trigger] before[i]).topic@
        != (#[trigger] before[j]).topic@ by {
        assert(before[i] == entries[i] && before[j] == entries[j]);
    }
    assert forall|i: int| 0 <= i < entries.len() - 1 implies (#[trigger] entries[i]).topic@
        != entries.last().topic@ by {
        assert(entries.last() == entries[entries.len() - 1]);
    }
}

proof fn lemma_entry(entries: Seq<TopicStats>, i: int)
    requires
        distinct_topics(entries),
        0 <= i < entries.len(),
    ensures
        by_topic(entries).contains_key(entries[i].topic@),
        by_topic(entries)[entries[i].topic@] == entries[i].stats@,
    decreases entries.len(),
{
    lemma_distinct_prefix(entries);
    if i < entries.len() - 1 {
        lemma_entry(entries.drop_last(), i);
        assert(entries.drop_last()[i] == entries[i]);
    }
}

proof fn lemma_replace(entries: Seq<TopicStats>, i: int, entry: TopicStats)
    requires
        distinct_topics(entries),
        0 <= i < entries.len(),
        entry.topic@ == entries[i].topic@,
    ensures
        distinct_topics(entries.update(i, entry)),
        by_topic(entries.update(i, entry)) == by_topic(entries).insert(entry.topic@, entry.stats@),
    decreases entries.len(),
{
    let after = entries.update(i, entry);
    assert forall|a: int, b: int| 0 <= a < b < after.len() implies (#[trigger] after[a]).topic@ != (
    #[trigger] after[b]).topic@ by {
        assert(after[a].topic@ == entries[a].topic@);
        assert(after[b].topic@ == entries[b].topic@);
    }
    lemma_distinct_prefix(entries);
    if i < entries.len() - 1 {
        lemma_replace(entries.drop_last(), i, entry);
        assert(after.drop_last() =~= entries.drop_last().update(i, entry));
        assert(entries[i].topic@ != entries.last().topic@);
    } else {
        assert(after.drop_last() =~= entries.drop_last());
    }
    assert(by_topic(after) =~= by_topic(entries).insert(entry.topic@, entry.stats@));
}

impl View for StatsTable {
    type V = Map<Seq<char>, StatsView>;

    open spec fn view(&self) -> Map<Seq<char>, StatsView> {
        by_topic(self.entries@)
    }
}

impl StatsTable {
    /// No topic occurs twice, and the statistics of each are well-formed.
    pub open spec fn wf(self) -> bool {
        &&& distinct_topics(self.entries@)
        &&& forall|i: int| 0 <= i < self.entries@.len() ==> (#[trigger] self.entries@[i]).stats.wf()
    }

    /// A table without topics.
    pub fn new() -> (t: StatsTable)
        ensures
            t.wf(),
            t@ == Map::<Seq<char>, StatsView>::empty(),
    {
        StatsTable { entries: Vec::new() }
    }

    fn find(&self, topic: &str) -> (r: Option<usize>)
        requires
            self.wf(),
        ensures
            r is Some <==> self@.contains_key(topic@),
            r matches Some(i) ==> i < self.entries@.len() && self.entries@[i as int].topic@
                == topic@ && self@[topic@] == self.entries@[i as int].stats@,
    {
        let mut i: usize = 0;
        while i < self.entries.len()
            invariant
                self.wf(),
                i <= self.entries@.len(),
                forall|k: int| 0 <= k < i ==> (#[trigger] self.entries@[k]).topic@ != topic@,
            decreases self.entries@.len() - i,
        {
            if same_text(self.entries[i].topic.as_str(), topic) {
                proof {
                    lemma_entry(self.entries@, i as int);
                }
                return Some(i);
            }
            i = i + 1;
        }
        proof {
            lemma_by_topic(self.entries@, topic@);
        }
        None
    }

    /// The statistics of a topic.
    pub fn get(&self, topic: &str) -> (r: Option<&StreamStats>)
        requires
            self.wf(),
        ensures
            r is Some <==> self@.contains_key(topic@),
            r matches Some(s) ==> s.wf() && s@ == self@[topic@],
    {
        match self.find(topic) {
            Some(i) => Some(&self.entries[i].stats),
            None => None,
        }
    }

    /// Sets the statistics of a topic, in place of any that the table has.
    pub fn insert(&mut self, topic: String, stats: StreamStats)
        requires
            old(self).wf(),
            stats.wf(),
        ensures
            final(self).wf(),
            final(self)@ == old(self)@.insert(topic@, stats@),
    {
        match self.find(topic.as_str()) {
            Some(i) => {
                let entry = TopicStats { topic, stats };
                proof {
                    lemma_replace(self.entries@, i as int, entry);
                }
                self.entries.set(i, entry);
            },
            None => {
                let entry = TopicStats { topic, stats };
                let ghost before = self.entries@;
                proof {
                    lemma_by_topic(before, topic@);
                }
                self.entries.push(entry);
                assert(self.entries@.drop_last() =~= before);
                assert forall|i: int, j: int| 0 <= i < j < self.entries@.len() implies (
                #[trigger] self.entries@[i]).topic@ != (#[trigger] self.entries@[j]).topic@ by {
                    assert(self.entries@[i] == before[i]);
                    if j < before.len() {
                        assert(self.entries@[j] == before[j]);
                    }
                }
            },
        }
    }

    /// A table with the statistics of nothing for each of the topics.
    pub fn with_topics(topics: &Vec<String>) -> (r: StatsTable)
        ensures
            r.wf(),
            forall|t: Seq<char>| #[trigger]
                r@.contains_key(t) <==> exists|i: int|
                    0 <= i < topics@.len() && (#[trigger] topics@[i])@ == t,
            forall|t: Seq<char>| #[trigger] r@.contains_key(t) ==> r@[t] == StatsView::fresh(),
    {
        let mut r = StatsTable::new();
        for k in 0..topics.len()
            invariant
                r.wf(),
                forall|t: Seq<char>| #[trigger]
                    r@.contains_key(t) <==> exists|i: int|
                        0 <= i < k && (#[trigger] topics@[i])@ == t,
                forall|t: Seq<char>| #[trigger] r@.contains_key(t) ==> r@[t] == StatsView::fresh(),
        {
            let ghost before = r@;
            r.insert(topics[k].clone(), StreamStats::new());
            assert forall|t: Seq<char>| #[trigger] r@.contains_key(t) implies exists|i: int|
                0 <= i < k + 1 && (#[trigger] topics@[i])@ == t by {
                if t == topics@[k as int]@ {
                } else {
                    assert(before.contains_key(t));
                }
            }
            assert forall|i: int| 0 <= i < k + 1 implies #[trigger] r@.contains_key(
                topics@[i]@,
            ) by {
                if i < k {
                    assert(before.contains_key(topics@[i]@));
                }
            }
        }
        r
    }

    /// Whether the statistics of a topic can take one more message.
    pub fn can_record(&self, topic: &str, data: &[u8]) -> (r: bool)
        requires
            self.wf(),
        ensures
            r == (self@.contains_key(topic@) ==> self@[topic@].can_receive(data@)),
    {
        match self.find(topic) {
            Some(i) => self.entries[i].stats.can_record(data),
            None => true,
        }
    }

    /// Counts a message of a topic. A message of a topic that the table does not have is ignored.
    pub fn record(&mut self, topic: &str, data: &[u8], recv_ns: u64)
        requires
            old(self).wf(),
            old(self)@.contains_key(topic@) ==> old(self)@[topic@].can_receive(data@),
        ensures
            final(self).wf(),
            final(self)@ == if old(self)@.contains_key(topic@) {
                old(self)@.insert(topic@, old(self)@[topic@].receive(data@, recv_ns))
            } else {
                old(self)@
            },
    {
        match self.find(topic) {
            Some(i) => {
                let ghost before = self.entries@;
                self.entries[i].stats.record(data, recv_ns);
                proof {
                    lemma_replace(before, i as int, self.entries@[i as int]);
                    assert(self.entries@ =~= before.update(i as int, self.entries@[i as int]));
                }
            },
            None => {},
        }
    }

    /// Whether the statistics of a topic can take others.
    pub fn can_merge_topic(&self, topic: &str, stats: &StreamStats) -> (r: bool)
        requires
            self.wf(),
        ensures
            r == stats_or_fresh(self@, topic@).can_merge(stats@),
    {
        match self.find(topic) {
            Some(i) => self.entries[i].stats.can_merge(stats),
            None => true,
        }
    }

    /// Adds statistics to those of a topic, which the table need not have yet.
    pub fn merge_topic(&mut self, topic: &str, stats: &StreamStats)
        requires
            old(self).wf(),
            stats.wf(),
            stats_or_fresh(old(self)@, topic@).can_merge(stats@),
        ensures
            final(self).wf(),
            final(self)@ == old(self)@.insert(
                topic@,
                stats_or_fresh(old(self)@, topic@).merge(stats@),
            ),
    {
        match self.find(topic) {
            Some(i) => {
                let ghost before = self.entries@;
                self.entries[i].stats.merge(stats);
                proof {
                    lemma_replace(before, i as int, self.entries@[i as int]);
                    assert(self.entries@ =~= before.update(i as int, self.entries@[i as int]));
                }
            },
            None => {
                let mut sum = StreamStats::new();
                sum.merge(stats);
                self.insert(topic.to_owned(), sum);
            },
        }
    }

    /// Whether the counters can take those of another table, topic by topic.
    pub fn can_merge_table(&self, other: &StatsTable) -> (r: bool)
        requires
            self.wf(),
            other.wf(),
        ensures
            r == mergeable(self@, other@),
    {
        let n: usize = other.entries.len();
        for k in 0..n
            invariant
                self.wf(),
                other.wf(),
                n == other.entries@.len(),
                forall|i: int|
                    0 <= i < k ==> stats_or_fresh(
                        self@,
                        (#[trigger] other.entries@[i]).topic@,
                    ).can_merge(other.entries@[i].stats@),
        {
            let entry = &other.entries[k];
            if !self.can_merge_topic(entry.topic.as_str(), &entry.stats) {
                proof {
                    lemma_entry(other.entries@, k as int);
                    assert(other@.contains_key(entry.topic@));
                }
                return false;
            }
        }
        proof {
            assert forall|t: Seq<char>| #[trigger] other@.contains_key(t) implies stats_or_fresh(
                self@,
                t,
            ).can_merge(other@[t]) by {
                lemma_by_topic(other.entries@, t);
                let i = choose|i: int|
                    0 <= i < other.entries@.len() && (#[trigger] other.entries@[i]).topic@ == t;
                lemma_entry(other.entries@, i);
            }
        }
        true
    }

    /// Adds the statistics of another table, topic by topic.
    pub fn merge_table(&mut self, other: &StatsTable)
        requires
            old(self).wf(),
            other.wf(),
            mergeable(old(self)@, other@),
        ensures
            final(self).wf(),
            final(self)@ == merged_tables(old(self)@, other@),
    {
        let ghost start = self@;
        let ghost all = other.entries@;
        let mut k: usize = 0;
        assert(self@ =~= merged_tables(start, by_topic(all.take(0))));
        while k < other.entries.len()
            invariant
                self.wf(),
                other.wf(),
                mergeable(start, other@),
                all == other.entries@,
                k <= all.len(),
                self@ == merged_tables(start, by_topic(all.take(k as int))),
            decreases all.len() - k,
        {
            let entry = &other.entries[k];
            let ghost t = entry.topic@;
            let ghost done = by_topic(all.take(k as int));
            proof {
                lemma_by_topic(all.take(k as int), t);
                assert(all.take(k + 1).drop_last() =~= all.take(k as int));
                assert(!done.contains_key(t)) by {
                    if done.contains_key(t) {
                        let i = choose|i: int|
                            0 <= i < k && (#[trigger] all.take(k as int)[i]).topic@ == t;
                        assert(all.take(k as int)[i] == all[i]);
                        assert(all[k as int].topic@ == t);
                    }
                }
                lemma_entry(all, k as int);
                assert(other@.contains_key(t));
                assert(stats_or_fresh(self@, t) == stats_or_fresh(start, t));
            }
            self.merge_topic(entry.topic.as_str(), &entry.stats);
            assert(self@ =~= merged_tables(start, by_topic(all.take(k + 1))));
            k = k + 1;
        }
        assert(all.take(k as int) =~= all);
    }

    /// The messages that the table counts, over all topics.
    pub fn total_received(&self) -> (r: u128)
        ensures
            r == received_by(self.entries@),
    {
        let mut r: u128 = 0;
        let n: usize = self.entries.len();
        for k in 0..n
            invariant
                n == self.entries@.len(),
                r == received_by(self.entries@.take(k as int)),
                r <= k * u64::MAX,
        {
            assert(self.entries@.take(k + 1).drop_last() =~= self.entries@.take(k as int));
            assert(k * u64::MAX + u64::MAX <= u128::MAX) by (nonlinear_arith)
                requires
                    k <= u64::MAX,
            ;
            assert((k + 1) * u64::MAX == k * u64::MAX + u64::MAX) by (nonlinear_arith);
            r = r + self.entries[k].stats.messages_received as u128;
        }
        assert(self.entries@.take(n as int) =~= self.entries@);
        r
    }

    /// What the partitions of a stream add up to; `None` where a counter would overflow.
    pub fn aggregate(&self, prefix: &str, label: &str, partitions: usize) -> (r: Option<
        StreamStats,
    >)
        requires
            self.wf(),
        ensures
            r is Some <==> aggregated(self@, prefix@, label@, partitions as nat).fits(),
            r matches Some(s) ==> s.wf() && s@ == aggregated(
                self@,
                prefix@,
                label@,
                partitions as nat,
            ),
    {
        let mut sum = StreamStats::new();
        let mut p: usize = 0;
        while p < partitions
            invariant
                self.wf(),
                sum.wf(),
                p <= partitions,
                sum@ == aggregated(self@, prefix@, label@, p as nat),
            decreases partitions - p,
        {
            let topic = topic_name(prefix, label, p as u64);
            if let Some(stats) = self.get(topic.as_str()) {
                if !sum.can_merge(stats) {
                    proof {
                        lemma_aggregated_grows(
                            self@,
                            prefix@,
                            label@,
                            (p + 1) as nat,
                            partitions as nat,
                        );
                    }
                    return None;
                }
                sum.merge(stats);
            }
            p = p + 1;
        }
        Some(sum)
    }
}

/// Whether the counters can take those of another table, topic by topic.
pub open spec fn mergeable(
    a: Map<Seq<char>, StatsView>,
    b: Map<Seq<char>, StatsView>,
) -> bool {
    forall|t: Seq<char>| #[trigger]
        b.contains_key(t) ==> stats_or_fresh(a, t).can_merge(b[t])
}

/// What the first partitions of a stream add up to. A topic that has no statistics adds nothing.
pub open spec fn aggregated(
    table: Map<Seq<char>, StatsView>,
    prefix: Seq<char>,
    label: Seq<char>,
    partitions: nat,
) -> StatsView
    decreases partitions,
{
    if partitions == 0 {
        StatsView::fresh()
    } else {
        let p = (partitions - 1) as nat;
        let before = aggregated(table, prefix, label, p);
        let topic = topic_text(prefix, label, p);
        if table.contains_key(topic) {
            before.merge(table[topic])
        } else {
            before
        }
    }
}

proof fn lemma_aggregated_grows(
    table: Map<Seq<char>, StatsView>,
    prefix: Seq<char>,
    label: Seq<char>,
    some: nat,
    all: nat,
)
    requires
        some <= all,
    ensures
        aggregated(table, prefix, label, some).received <= aggregated(
            table,
            prefix,
            label,
            all,
        ).received,
        aggregated(table, prefix, label, some).bytes <= aggregated(table, prefix, label, all).bytes,
        aggregated(table, prefix, label, some).lost <= aggregated(table, prefix, label, all).lost,
    decreases all,
{
    if some < all {
        lemma_aggregated_grows(table, prefix, label, some, (all - 1) as nat);
    }
}

/// Where all messages of a stream come on its first topic, that topic holds what the partitions add
/// up to, however many there are.
pub proof fn law_first_topic_is_the_whole(
    table: Map<Seq<char>, StatsView>,
    prefix: Seq<char>,
    label: Seq<char>,
    partitions: nat,
)
    requires
        partitions > 0,
        forall|p: nat|
            0 < p < partitions ==> !table.contains_key(#[trigger] topic_text(prefix, label, p)),
    ensures
        aggregated(table, prefix, label, partitions) == if table.contains_key(
            topic_text(prefix, label, 0),
        ) {
            StatsView::fresh().merge(table[topic_text(prefix, label, 0)])
        } else {
            StatsView::fresh()
        },
    decreases partitions,
{
    reveal_with_fuel(aggregated, 2);
    if partitions > 1 {
        law_first_topic_is_the_whole(table, prefix, label, (partitions - 1) as nat);
        assert(!table.contains_key(topic_text(prefix, label, (partitions - 1) as nat)));
    }
}

/// Over how many topics the statistics of a stream are spread: one with NATS, else one for each
/// partition.
pub fn partition_count(broker: &BrokerType, num_partitions: usize) -> (r: usize)
    ensures
        r == match *broker {
            BrokerType::Nats => 1,
            _ => num_partitions,
        },
{
    match broker {
        BrokerType::Nats => 1,
        BrokerType::Redpanda | BrokerType::Kafka | BrokerType::Grpc => num_partitions,
    }
}

/// The sum of the first values of a function.
pub open spec fn sum_below(n: nat, f: spec_fn(nat) -> nat) -> nat
    decreases n,
{
    if n == 0 {
        0
    } else {
        sum_below((n - 1) as nat, f) + f((n - 1) as nat)
    }
}

/// What a table holds of something that is counted, for the topic of a partition; 0 where it does
/// not have the topic.
pub open spec fn held(
    table: Map<Seq<char>, StatsView>,
    prefix: Seq<char>,
    label: Seq<char>,
    p: nat,
    of: spec_fn(StatsView) -> nat,
) -> nat {
    let topic = prefix + seq!['_'] + label + seq!['_'] + decimal(p);
    if table.contains_key(topic) {
        of(table[topic])
    } else {
        0
    }
}

/// What the partitions of a stream add up to is the sum over every one of them, in messages, bytes,
/// losses, and samples of each level.
pub proof fn law_aggregate_is_the_sum(
    table: Map<Seq<char>, StatsView>,
    prefix: Seq<char>,
    label: Seq<char>,
    partitions: nat,
    level: u64,
)
    ensures
        ({
            let all = aggregated(table, prefix, label, partitions);
            &&& all.received == sum_below(
                partitions,
                |p: nat| held(table, prefix, label, p, |s: StatsView| s.received),
            )
            &&& all.bytes == sum_below(
                partitions,
                |p: nat| held(table, prefix, label, p, |s: StatsView| s.bytes),
            )
            &&& all.lost == sum_below(
                partitions,
                |p: nat| held(table, prefix, label, p, |s: StatsView| s.lost),
            )
            &&& all.levels.count(level) == sum_below(
                partitions,
                |p: nat| held(table, prefix, label, p, |s: StatsView| s.levels.count(level)),
            )
            &&& all.levels.len() == sum_below(
                partitions,
                |p: nat| held(table, prefix, label, p, |s: StatsView| s.levels.len()),
            )
        }),
    decreases partitions,
{
    if partitions > 0 {
        law_aggregate_is_the_sum(table, prefix, label, (partitions - 1) as nat, level);
    }
}

/// Merging two tables adds up what they hold of each topic, and holds the topics of both.
pub proof fn law_tables_add_up(
    a: Map<Seq<char>, StatsView>,
    b: Map<Seq<char>, StatsView>,
    t: Seq<char>,
    level: u64,
)
    ensures
        ({
            let m = merged_tables(a, b);
            let (x, y) = (
                if a.contains_key(t) {
                    a[t]
                } else {
                    StatsView::fresh()
                },
                if b.contains_key(t) {
                    b[t]
                } else {
                    StatsView::fresh()
                },
            );
            &&& m.contains_key(t) <==> a.contains_key(t) || b.contains_key(t)
            &&& m.contains_key(t) ==> {
                &&& m[t].received == x.received + y.received
                &&& m[t].bytes == x.bytes + y.bytes
                &&& m[t].lost == x.lost + y.lost
                &&& m[t].levels.count(level) == x.levels.count(level) + y.levels.count(level)
            }
        }),
{
}

/// The messages that a table counts are those of each of its entries, none left out.
pub proof fn law_all_entries_count(a: Seq<TopicStats>, b: Seq<TopicStats>, entry: TopicStats)
    ensures
        received_by(Seq::empty()) == 0,
        received_by(seq![entry]) == entry.stats.messages_received,
        received_by(a + b) == received_by(a) + received_by(b),
    decreases b.len(),
{
    assert(seq![entry].drop_last() =~= Seq::empty());
    assert(received_by(seq![entry].drop_last()) == 0);
    if b.len() == 0 {
        assert(a + b =~= a);
    } else {
        law_all_entries_count(a, b.drop_last(), entry);
        assert((a + b).drop_last() =~= a + b.drop_last());
    }
}

/// A table shows exactly its entries, each under its topic.
pub proof fn law_table_shows_its_entries(table: StatsTable, t: Seq<char>, i: int)
    requires
        table.wf(),
        0 <= i < table.entries@.len(),
    ensures
        table@.contains_key(t) <==> exists|k: int|
            0 <= k < table.entries@.len() && (#[trigger] table.entries@[k]).topic@ == t,
        table@[table.entries@[i].topic@].received == table.entries@[i].stats.messages_received,
        table@[table.entries@[i].topic@].lost == table.entries@[i].stats.messages_lost,
        table@[table.entries@[i].topic@].bytes == table.entries@[i].stats.total_bytes_received,
{
    lemma_by_topic(table.entries@, t);
    lemma_entry(table.entries@, i);
}

/// Two tables can be merged exactly if, for every topic of the second, the counts of both together
/// fit in 64 bits.
pub proof fn law_tables_merge_where_counts_fit(
    a: Map<Seq<char>, StatsView>,
    b: Map<Seq<char>, StatsView>,
)
    ensures
        mergeable(a, b) <==> forall|t: Seq<char>| #[trigger]
            b.contains_key(t) ==> {
                let before = if a.contains_key(t) {
                    a[t]
                } else {
                    StatsView::fresh()
                };
                &&& before.received + b[t].received <= 0xffff_ffff_ffff_ffff
                &&& before.bytes + b[t].bytes <= 0xffff_ffff_ffff_ffff
                &&& before.lost + b[t].lost <= 0xffff_ffff_ffff_ffff
            },
{
}

} // verus!
