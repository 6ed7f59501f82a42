//! Statistics by stream id, as a server keeps them that receives all streams of a run.
use crate::config::{lemma_run_mode_names, run_mode_name, run_mode_of, RunMode};
use crate::loss::{receive_all, Arrival};
use crate::message::{
    decode_header, decoded, encoded, law_header_round_trip, Header, HEADER_LEN,
};
use crate::stats::{law_counters_take_what_fits, StatsView, StreamStats};
use crate::streams::{
    law_topics_differ, single_modes, stream_id, stream_of, stream_views, streams_of,
    task_stream_id, topic_name, topic_text, ActiveStream,
};
use crate::table::{aggregated, stats_or_fresh, sum_below, StatsTable};
use std::collections::HashMap;
use vstd::prelude::*;

verus! {

broadcast use vstd::std_specs::hash::group_hash_axioms;

/// Statistics by stream id.
#[derive(Debug)]
pub struct StatsById {
    pub stats: HashMap<u64, StreamStats>,
}

/// The statistics after one more message. A message without a header belongs to no stream and is
/// ignored.
pub open spec fn received_by_id(
    ids: Map<u64, StatsView>,
    data: Seq<u8>,
    recv_ns: u64,
) -> Map<u64, StatsView> {
    match decoded(data) {
        Some(h) => ids.insert(
            h.stream_id,
            stats_or_fresh(ids, h.stream_id).receive(data, recv_ns),
        ),
        None => ids,
    }
}

/// Whether the statistics can take one more message.
pub open spec fn can_receive_by_id(ids: Map<u64, StatsView>, data: Seq<u8>) -> bool {
    decoded(data) matches Some(h) ==> stats_or_fresh(ids, h.stream_id).can_receive(data)
}

/// A table with the statistics of the first partitions of a stream put under their topics.
pub open spec fn with_stream(
    table: Map<Seq<char>, StatsView>,
    ids: Map<u64, StatsView>,
    prefix: Seq<char>,
    bytes: u64,
    label: Seq<char>,
    partitions: nat,
) -> Map<Seq<char>, StatsView>
    decreases partitions,
{
    if partitions == 0 {
        table
    } else {
        let p = (partitions - 1) as nat;
        let before = with_stream(table, ids, prefix, bytes, label, p);
        let id = stream_id(bytes, p as int) as u64;
        if ids.contains_key(id) {
            before.insert(topic_text(prefix, label, p), StatsView::fresh().merge(ids[id]))
        } else {
            before
        }
    }
}

/// The statistics of the partitions of all streams under their topics.
pub open spec fn topics_of_ids(
    ids: Map<u64, StatsView>,
    prefix: Seq<char>,
    streams: Seq<ActiveStream>,
    partitions: nat,
) -> Map<Seq<char>, StatsView>
    decreases streams.len(),
{
    if streams.len() == 0 {
        Map::empty()
    } else {
        with_stream(
            topics_of_ids(ids, prefix, streams.drop_last(), partitions),
            ids,
            prefix,
            streams.last().bytes,
            streams.last().label@,
            partitions,
        )
    }
}

impl View for StatsById {
    type V = Map<u64, StatsView>;

    open spec fn view(&self) -> Map<u64, StatsView> {
        self.stats@.map_values(|s: StreamStats| s@)
    }
}

impl StatsById {
    /// The statistics of every stream are well-formed.
    pub open spec fn wf(self) -> bool {
        forall|id: u64| #[trigger] self.stats@.contains_key(id) ==> self.stats@[id].wf()
    }

    /// No streams yet.
    pub fn new() -> (r: StatsById)
        ensures
            r.wf(),
            r@ == Map::<u64, StatsView>::empty(),
    {
        let r = StatsById { stats: HashMap::new() };
        assert(r@ =~= Map::<u64, StatsView>::empty());
        r
    }

    /// The statistics of a stream.
    pub fn get(&self, id: u64) -> (r: Option<&StreamStats>)
        requires
            self.wf(),
        ensures
            r is Some <==> self@.contains_key(id),
            r matches Some(s) ==> s.wf() && s@ == self@[id],
    {
        self.stats.get(&id)
    }

    /// Whether the statistics can take one more message.
    pub fn can_record(&self, data: &[u8]) -> (r: bool)
        requires
            self.wf(),
        ensures
            r == can_receive_by_id(self@, data@),
    {
        match decode_header(data) {
            Some((_, _, id)) => match self.get(id) {
                Some(stats) => stats.can_record(data),
                None => StreamStats::new().can_record(data),
            },
            None => true,
        }
    }

    /// Counts a message under the stream that its header names.
    pub fn record(&mut self, data: &[u8], recv_ns: u64)
        requires
            old(self).wf(),
            can_receive_by_id(old(self)@, data@),
        ensures
            final(self).wf(),
            final(self)@ == received_by_id(old(self)@, data@, recv_ns),
    {
        let ghost before = self@;
        if let Some((_, _, id)) = decode_header(data) {
            let mut stats = match self.stats.remove(&id) {
                Some(stats) => stats,
                None => StreamStats::new(),
            };
            stats.record(data, recv_ns);
            self.stats.insert(id, stats);
            assert(self@ =~= received_by_id(before, data@, recv_ns));
        }
    }

    /// Puts the statistics of the partitions of the given streams under their topics.
    pub fn to_topics(
        &self,
        prefix: &str,
        streams: &Vec<ActiveStream>,
        partitions: usize,
    ) -> (r: StatsTable)
        requires
            self.wf(),
            forall|i: int|
                0 <= i < streams@.len() ==> stream_id(
                    (#[trigger] streams@[i]).bytes,
                    partitions - 1,
                ) <= u64::MAX,
        ensures
            r.wf(),
            r@ == topics_of_ids(self@, prefix@, streams@, partitions as nat),
    {
        let mut table = StatsTable::new();
        let mut i: usize = 0;
        assert(streams@.take(0) =~= Seq::empty());
        while i < streams.len()
            invariant
                self.wf(),
                table.wf(),
                i <= streams@.len(),
                table@ == topics_of_ids(
                    self@,
                    prefix@,
                    streams@.take(i as int),
                    partitions as nat,
                ),
                forall|k: int|
                    0 <= k < streams@.len() ==> stream_id(
                        (#[trigger] streams@[k]).bytes,
                        partitions - 1,
                    ) <= u64::MAX,
            decreases streams@.len() - i,
        {
            let stream = streams[i];
            let ghost before = table@;
            let mut p: usize = 0;
            while p < partitions
                invariant
                    self.wf(),
                    table.wf(),
                    p <= partitions,
                    stream_id(stream.bytes, partitions - 1) <= u64::MAX,
                    table@ == with_stream(
                        before,
                        self@,
                        prefix@,
                        stream.bytes,
                        stream.label@,
                        p as nat,
                    ),
                decreases partitions - p,
            {
                let id: u64 = task_stream_id(stream.bytes, p as u64);
                if let Some(stats) = self.get(id) {
                    let mut sum = StreamStats::new();
                    sum.merge(stats);
                    table.insert(topic_name(prefix, stream.label, p as u64), sum);
                }
                p = p + 1;
            }
            assert(streams@.take(i + 1).drop_last() =~= streams@.take(i as int));
            i = i + 1;
        }
        assert(streams@.take(i as int) =~= streams@);
        table
    }
}

/// What a server has seen of one call, in which a client streams messages to it.
#[derive(Debug, Clone, Copy, PartialEq, Eq, Structural)]
pub struct ServedCall {
    /// The messages received in the call, with or without a header.
    pub messages_received: u64,
}

impl ServedCall {
    /// Before the first message.
    pub fn new() -> (r: ServedCall)
        ensures
            r.messages_received == 0,
    {
        ServedCall { messages_received: 0 }
    }

    /// Whether the counters can take one more message.
    pub fn can_take(&self, stats: &StatsById, data: &[u8]) -> (r: bool)
        requires
            stats.wf(),
        ensures
            r == (self.messages_received < u64::MAX && can_receive_by_id(stats@, data@)),
    {
        self.messages_received < u64::MAX && stats.can_record(data)
    }

    /// Counts a message, both for the call and under the stream that its header names.
    pub fn take(&mut self, stats: &mut StatsById, data: &[u8], recv_ns: u64)
        requires
            old(self).messages_received < u64::MAX,
            old(stats).wf(),
            can_receive_by_id(old(stats)@, data@),
        ensures
            final(self).messages_received == old(self).messages_received + 1,
            final(stats).wf(),
            final(stats)@ == received_by_id(old(stats)@, data@, recv_ns),
    {
        stats.record(data, recv_ns);
        self.messages_received = self.messages_received + 1;
    }
}

/// The statistics after a number of messages, in the order in which they arrived.
pub open spec fn receive_all_by_id(
    ids: Map<u64, StatsView>,
    arrivals: Seq<Arrival>,
) -> Map<u64, StatsView>
    decreases arrivals.len(),
{
    if arrivals.len() == 0 {
        ids
    } else {
        received_by_id(
            receive_all_by_id(ids, arrivals.drop_last()),
            arrivals.last().data,
            arrivals.last().recv_ns,
        )
    }
}

/// Each stream has the statistics of its own messages, however they were mixed with those of
/// others.
pub proof fn law_each_stream_has_its_own_statistics(arrivals: Seq<Arrival>, id: u64)
    ensures
        stats_or_fresh(receive_all_by_id(Map::empty(), arrivals), id) == receive_all(
            StatsView::fresh(),
            arrivals.filter(|a: Arrival| a.is_on(id)),
        ),
    decreases arrivals.len(),
{
    let on = |a: Arrival| a.is_on(id);
    reveal(Seq::filter);
    if arrivals.len() > 0 {
        let before = arrivals.drop_last();
        law_each_stream_has_its_own_statistics(before, id);
        if on(arrivals.last()) {
            assert(arrivals.filter(on) =~= before.filter(on).push(arrivals.last()));
            assert(arrivals.filter(on).drop_last() =~= before.filter(on));
        }
    }
}

/// What the partitions of a stream add up to, by their stream ids.
pub open spec fn aggregated_ids(ids: Map<u64, StatsView>, bytes: u64, partitions: nat) -> StatsView
    decreases partitions,
{
    if partitions == 0 {
        StatsView::fresh()
    } else {
        let p = (partitions - 1) as nat;
        let before = aggregated_ids(ids, bytes, p);
        let id = stream_id(bytes, p as int) as u64;
        if ids.contains_key(id) {
            before.merge(ids[id])
        } else {
            before
        }
    }
}

/// Whether the labels of a list of streams differ from one another, as those of every run do.
pub open spec fn labels_differ(streams: Seq<ActiveStream>) -> bool {
    forall|i: int, j: int|
        0 <= i < j < streams.len() ==> (#[trigger] streams[i]).label@ != (
        #[trigger] streams[j]).label@
}

/// The streams of a run have labels of their own.
pub proof fn law_streams_of_a_run_have_their_own_labels(streams: Seq<ActiveStream>, mode: RunMode)
    requires
        stream_views(streams) == streams_of(mode),
    ensures
        labels_differ(streams),
{
    lemma_run_mode_names();
    assert(stream_views(streams).len() == streams.len());
    assert(single_modes().len() == 8);
    assert forall|i: int| 0 <= i < streams.len() && mode == RunMode::Combined implies (
    #[trigger] streams[i]).label@ == run_mode_name(single_modes()[i]) by {
        assert(stream_views(streams)[i] == (streams[i].bytes, streams[i].label@));
        assert(stream_views(streams)[i] == streams_of(mode)[i]);
        assert(streams_of(mode)[i] == stream_of(single_modes()[i]));
    }
    assert forall|i: int, j: int| 0 <= i < j < streams.len() implies (#[trigger] streams[i]).label@
        != (#[trigger] streams[j]).label@ by {
        let (a, b) = (single_modes()[i], single_modes()[j]);
        assert(a != b);
        assert(run_mode_of(run_mode_name(a)) == a);
        assert(run_mode_of(run_mode_name(b)) == b);
    }
}

proof fn lemma_with_stream(
    table: Map<Seq<char>, StatsView>,
    ids: Map<u64, StatsView>,
    prefix: Seq<char>,
    bytes: u64,
    label: Seq<char>,
    partitions: nat,
    other: Seq<char>,
    p: nat,
)
    ensures
        ({
            let after = with_stream(table, ids, prefix, bytes, label, partitions);
            let t = topic_text(prefix, other, p);
            let id = stream_id(bytes, p as int) as u64;
            if other == label && p < partitions && ids.contains_key(id) {
                after.contains_key(t) && after[t] == StatsView::fresh().merge(ids[id])
            } else {
                &&& after.contains_key(t) == table.contains_key(t)
                &&& after[t] == table[t]
            }
        }),
    decreases partitions,
{
    if partitions > 0 {
        let q = (partitions - 1) as nat;
        lemma_with_stream(table, ids, prefix, bytes, label, q, other, p);
        law_topics_differ(prefix, label, q, other, p);
    }
}

/// The topic of a partition holds what the id of the partition holds, and nothing where the id has
/// received nothing.
pub proof fn law_topics_hold_what_ids_hold(
    ids: Map<u64, StatsView>,
    prefix: Seq<char>,
    streams: Seq<ActiveStream>,
    partitions: nat,
    i: int,
    p: nat,
)
    requires
        labels_differ(streams),
        0 <= i < streams.len(),
        p < partitions,
    ensures
        ({
            let table = topics_of_ids(ids, prefix, streams, partitions);
            let t = topic_text(prefix, streams[i].label@, p);
            let id = stream_id(streams[i].bytes, p as int) as u64;
            &&& table.contains_key(t) <==> ids.contains_key(id)
            &&& ids.contains_key(id) ==> table[t] == StatsView::fresh().merge(ids[id])
        }),
    decreases streams.len(),
{
    let before = streams.drop_last();
    let last = streams.len() - 1;
    assert(forall|k: int| 0 <= k < before.len() ==> before[k] == streams[k]);
    assert(labels_differ(before)) by {
        assert forall|a: int, b: int| 0 <= a < b < before.len() implies (
        #[trigger] before[a]).label@ != (#[trigger] before[b]).label@ by {
            assert(streams[a].label@ != streams[b].label@);
        }
    }
    lemma_with_stream(
        topics_of_ids(ids, prefix, before, partitions),
        ids,
        prefix,
        streams[last].bytes,
        streams[last].label@,
        partitions,
        streams[i].label@,
        p,
    );
    if i < last {
        law_topics_hold_what_ids_hold(ids, prefix, before, partitions, i, p);
        assert(streams[i].label@ != streams[last].label@);
    } else {
        lemma_topic_of_no_stream(ids, prefix, before, partitions, streams[i].label@, p);
    }
}

proof fn lemma_topic_of_no_stream(
    ids: Map<u64, StatsView>,
    prefix: Seq<char>,
    streams: Seq<ActiveStream>,
    partitions: nat,
    label: Seq<char>,
    p: nat,
)
    requires
        forall|k: int| 0 <= k < streams.len() ==> (#[trigger] streams[k]).label@ != label,
    ensures
        !topics_of_ids(ids, prefix, streams, partitions).contains_key(
            topic_text(prefix, label, p),
        ),
    decreases streams.len(),
{
    if streams.len() > 0 {
        let before = streams.drop_last();
        assert(forall|k: int| 0 <= k < before.len() ==> before[k] == streams[k]);
        lemma_topic_of_no_stream(ids, prefix, before, partitions, label, p);
        let last = streams[streams.len() - 1];
        assert(last.label@ != label);
        lemma_with_stream(
            topics_of_ids(ids, prefix, before, partitions),
            ids,
            prefix,
            last.bytes,
            last.label@,
            partitions,
            label,
            p,
        );
    }
}

/// What is reported for a stream is what the ids of its partitions add up to.
pub proof fn law_report_adds_up_the_ids(
    ids: Map<u64, StatsView>,
    prefix: Seq<char>,
    streams: Seq<ActiveStream>,
    partitions: nat,
    i: int,
    some: nat,
)
    requires
        labels_differ(streams),
        0 <= i < streams.len(),
        some <= partitions,
    ensures
        aggregated(
            topics_of_ids(ids, prefix, streams, partitions),
            prefix,
            streams[i].label@,
            some,
        ) == aggregated_ids(ids, streams[i].bytes, some),
    decreases some,
{
    if some > 0 {
        let p = (some - 1) as nat;
        law_report_adds_up_the_ids(ids, prefix, streams, partitions, i, p);
        law_topics_hold_what_ids_hold(ids, prefix, streams, partitions, i, p);
        let id = stream_id(streams[i].bytes, p as int) as u64;
        if ids.contains_key(id) {
            let before = aggregated_ids(ids, streams[i].bytes, p);
            assert(StatsView::fresh().merge(ids[id]).levels =~= ids[id].levels);
            assert(before.merge(StatsView::fresh().merge(ids[id])) =~= before.merge(ids[id]));
        }
    }
}

/// What the partitions of a stream add up to, by their ids, is the sum over the ids `size * 1000`,
/// `size * 1000 + 1` and so on, one for each partition.
pub proof fn law_ids_are_summed(ids: Map<u64, StatsView>, bytes: u64, partitions: nat, level: u64)
    ensures
        ({
            let all = aggregated_ids(ids, bytes, partitions);
            &&& all.received == sum_below(
                partitions,
                |p: nat| held_by_id(ids, bytes, p, |s: StatsView| s.received),
            )
            &&& all.bytes == sum_below(
                partitions,
                |p: nat| held_by_id(ids, bytes, p, |s: StatsView| s.bytes),
            )
            &&& all.lost == sum_below(
                partitions,
                |p: nat| held_by_id(ids, bytes, p, |s: StatsView| s.lost),
            )
            &&& all.levels.count(level) == sum_below(
                partitions,
                |p: nat| held_by_id(ids, bytes, p, |s: StatsView| s.levels.count(level)),
            )
        }),
    decreases partitions,
{
    if partitions > 0 {
        law_ids_are_summed(ids, bytes, (partitions - 1) as nat, level);
    }
}

/// What a server holds of something that is counted, under the id of a partition; 0 where nothing
/// came under it.
pub open spec fn held_by_id(
    ids: Map<u64, StatsView>,
    bytes: u64,
    p: nat,
    of: spec_fn(StatsView) -> nat,
) -> nat {
    let id = (bytes * 1000 + p) as u64;
    if ids.contains_key(id) {
        of(ids[id])
    } else {
        0
    }
}

/// A message counts under the id in its header and under no other.
pub proof fn law_message_counts_under_its_id(
    ids: Map<u64, StatsView>,
    buf: Seq<u8>,
    h: Header,
    recv_ns: u64,
    id: u64,
)
    requires
        buf.len() >= HEADER_LEN,
    ensures
        ({
            let after = received_by_id(ids, encoded(buf, h), recv_ns);
            let before = if ids.contains_key(id) {
                ids[id]
            } else {
                StatsView::fresh()
            };
            &&& id == h.stream_id ==> after.contains_key(id) && after[id].received
                == before.received + 1 && after[id].bytes == before.bytes + buf.len()
            &&& id != h.stream_id ==> (after.contains_key(id) <==> ids.contains_key(id))
            &&& id != h.stream_id && ids.contains_key(id) ==> after[id] == ids[id]
        }),
{
    law_header_round_trip(buf, h);
}

/// What is known of a stream is what is kept under its id.
pub proof fn law_ids_show_their_statistics(s: StatsById, id: u64)
    ensures
        s@.contains_key(id) <==> s.stats@.contains_key(id),
        s@.contains_key(id) ==> {
            &&& s@[id].received == s.stats@[id].messages_received
            &&& s@[id].lost == s.stats@[id].messages_lost
            &&& s@[id].bytes == s.stats@[id].total_bytes_received
        },
{
}

/// A server can take a message exactly if it has no header, or the counts of its stream fit in 64
/// bits afterwards, and so does the number behind its own.
pub proof fn law_server_takes_what_fits(ids: Map<u64, StatsView>, data: Seq<u8>, recv_ns: u64)
    requires
        decoded(data) matches Some(h) ==> ids.contains_key(h.stream_id) ==> {
            let before = ids[h.stream_id];
            &&& before.received <= u64::MAX
            &&& before.bytes <= u64::MAX
            &&& before.lost <= u64::MAX
        },
    ensures
        can_receive_by_id(ids, data) <==> match decoded(data) {
            Some(h) => {
                let after = received_by_id(ids, data, recv_ns)[h.stream_id];
                &&& after.received <= 0xffff_ffff_ffff_ffff
                &&& after.bytes <= 0xffff_ffff_ffff_ffff
                &&& after.lost <= 0xffff_ffff_ffff_ffff
                &&& h.seq < 0xffff_ffff_ffff_ffff
            },
            None => true,
        },
{
    if let Some(h) = decoded(data) {
        law_counters_take_what_fits(stats_or_fresh(ids, h.stream_id), data, recv_ns);
    }
}

} // verus!
