//! What the statistics say about a run: the messages that arrived, and those that did not.
use crate::message::{decoded, encoded, law_header_round_trip, Header, HEADER_LEN};
use crate::stats::StatsView;
use vstd::prelude::*;

verus! {

/// A message as it arrived.
pub struct Arrival {
    pub data: Seq<u8>,
    pub recv_ns: u64,
}

impl Arrival {
    /// Whether the message belongs to a stream.
    pub open spec fn is_on(self, stream_id: u64) -> bool {
        decoded(self.data) matches Some(h) && h.stream_id == stream_id
    }

    /// The sequence number that the message carries.
    pub open spec fn seq(self) -> u64 {
        decoded(self.data)->0.seq
    }
}

/// The statistics after a number of messages, in the order in which they arrived.
pub open spec fn receive_all(s: StatsView, arrivals: Seq<Arrival>) -> StatsView
    decreases arrivals.len(),
{
    if arrivals.len() == 0 {
        s
    } else {
        receive_all(s, arrivals.drop_last()).receive(
            arrivals.last().data,
            arrivals.last().recv_ns,
        )
    }
}

/// The bytes of a number of messages.
pub open spec fn total_bytes(arrivals: Seq<Arrival>) -> nat
    decreases arrivals.len(),
{
    if arrivals.len() == 0 {
        0
    } else {
        total_bytes(arrivals.drop_last()) + arrivals.last().data.len()
    }
}

/// How many of the messages carry a header.
pub open spec fn with_header(arrivals: Seq<Arrival>) -> nat
    decreases arrivals.len(),
{
    if arrivals.len() == 0 {
        0
    } else {
        with_header(arrivals.drop_last()) + if decoded(arrivals.last().data) is Some {
            1nat
        } else {
            0nat
        }
    }
}

/// Messages of one stream whose sequence numbers increase.
pub open spec fn in_order_on(arrivals: Seq<Arrival>, stream_id: u64) -> bool {
    &&& forall|i: int|
        0 <= i < arrivals.len() ==> (#[trigger] arrivals[i]).is_on(stream_id) && arrivals[i].seq()
            < u64::MAX
    &&& forall|i: int, j: int|
        0 <= i < j < arrivals.len() ==> (#[trigger] arrivals[i]).seq() < (
        #[trigger] arrivals[j]).seq()
}

/// Every message counts as received and adds its bytes; every message with a header adds one
/// latency.
pub proof fn law_every_arrival_counts(s: StatsView, arrivals: Seq<Arrival>)
    ensures
        receive_all(s, arrivals).received == s.received + arrivals.len(),
        receive_all(s, arrivals).bytes == s.bytes + total_bytes(arrivals),
        receive_all(s, arrivals).levels.len() == s.levels.len() + with_header(arrivals),
    decreases arrivals.len(),
{
    if arrivals.len() > 0 {
        law_every_arrival_counts(s, arrivals.drop_last());
    }
}

/// Where the messages of a stream arrive in order, those found missing are exactly those between
/// what should have come and the last that came, less those that did arrive.
pub proof fn law_losses_are_the_missing_numbers(
    s: StatsView,
    arrivals: Seq<Arrival>,
    stream_id: u64,
)
    requires
        arrivals.len() > 0,
        in_order_on(arrivals, stream_id),
        s.next_expected(stream_id) <= arrivals[0].seq(),
    ensures
        receive_all(s, arrivals).lost == s.lost + (arrivals.last().seq() + 1 - s.next_expected(
            stream_id,
        ) - arrivals.len()),
        receive_all(s, arrivals).next_expected(stream_id) == arrivals.last().seq() + 1,
    decreases arrivals.len(),
{
    let before = arrivals.drop_last();
    if before.len() > 0 {
        assert forall|i: int| 0 <= i < before.len() implies (#[trigger] before[i]).is_on(stream_id)
            && before[i].seq() < u64::MAX by {
            assert(before[i] == arrivals[i]);
        }
        assert forall|i: int, j: int| 0 <= i < j < before.len() implies (
        #[trigger] before[i]).seq() < (#[trigger] before[j]).seq() by {
            assert(before[i] == arrivals[i]);
            assert(before[j] == arrivals[j]);
        }
        assert(before[0] == arrivals[0]);
        law_losses_are_the_missing_numbers(s, before, stream_id);
        assert(before.last() == arrivals[arrivals.len() - 2]);
    } else {
        assert(receive_all(s, before) == s);
        assert(arrivals[0] == arrivals.last());
    }
    assert(arrivals.last().is_on(stream_id));
}

/// How many of the messages belong to a stream.
pub open spec fn count_on(arrivals: Seq<Arrival>, stream_id: u64) -> nat
    decreases arrivals.len(),
{
    if arrivals.len() == 0 {
        0
    } else {
        count_on(arrivals.drop_last(), stream_id) + if arrivals.last().is_on(stream_id) {
            1nat
        } else {
            0nat
        }
    }
}

/// Messages of any number of streams, mixed in any way, such that the sequence numbers of each
/// stream follow one another without a gap, beginning with the one that should come next.
pub open spec fn gapless(s: StatsView, arrivals: Seq<Arrival>) -> bool {
    forall|i: int|
        0 <= i < arrivals.len() && decoded((#[trigger] arrivals[i]).data) is Some ==> {
            let h = decoded(arrivals[i].data)->0;
            &&& h.seq < u64::MAX
            &&& h.seq == s.next_expected(h.stream_id) + count_on(arrivals.take(i), h.stream_id)
        }
}

/// Where no stream has a gap, nothing is lost, and each stream should go on where it stopped.
pub proof fn law_no_gap_no_loss(s: StatsView, arrivals: Seq<Arrival>, stream_id: u64)
    requires
        gapless(s, arrivals),
    ensures
        receive_all(s, arrivals).lost == s.lost,
        receive_all(s, arrivals).next_expected(stream_id) == s.next_expected(stream_id) + count_on(
            arrivals,
            stream_id,
        ),
    decreases arrivals.len(),
{
    if arrivals.len() > 0 {
        let before = arrivals.drop_last();
        let last = arrivals.last();
        assert forall|i: int|
            0 <= i < before.len() && decoded((#[trigger] before[i]).data) is Some implies {
            let h = decoded(before[i].data)->0;
            &&& h.seq < u64::MAX
            &&& h.seq == s.next_expected(h.stream_id) + count_on(before.take(i), h.stream_id)
        } by {
            assert(before[i] == arrivals[i]);
            assert(before.take(i) =~= arrivals.take(i));
        }
        law_no_gap_no_loss(s, before, stream_id);
        if decoded(last.data) is Some {
            assert(arrivals[arrivals.len() - 1] == last);
            assert(arrivals.take(arrivals.len() - 1) =~= before);
            law_no_gap_no_loss(s, before, decoded(last.data)->0.stream_id);
        }
    }
}

/// Messages of any number of streams, mixed in any way, such that the sequence numbers of each
/// stream increase.
pub open spec fn increasing(arrivals: Seq<Arrival>) -> bool {
    &&& forall|i: int|
        0 <= i < arrivals.len() ==> (decoded((#[trigger] arrivals[i]).data) matches Some(h)
            ==> h.seq < u64::MAX)
    &&& forall|id: u64, i: int, j: int|
        0 <= i < j < arrivals.len() && #[trigger] arrivals[i].is_on(id)
            && #[trigger] arrivals[j].is_on(id) ==> arrivals[i].seq() < arrivals[j].seq()
}

/// The sum of the numbers under all streams.
pub open spec fn total_of(numbers: Map<u64, u64>) -> nat
    decreases numbers.dom().len(),
    when numbers.dom().finite()
{
    if numbers.dom().len() == 0 {
        0
    } else {
        let id = numbers.dom().choose();
        numbers[id] as nat + total_of(numbers.remove(id))
    }
}

proof fn lemma_total_without(numbers: Map<u64, u64>, id: u64)
    requires
        numbers.dom().finite(),
        numbers.contains_key(id),
    ensures
        total_of(numbers) == numbers[id] + total_of(numbers.remove(id)),
    decreases numbers.dom().len(),
{
    let one = numbers.dom().choose();
    assert(numbers.dom().contains(id));
    assert(numbers.dom().len() > 0);
    if one != id {
        lemma_total_without(numbers.remove(one), id);
        lemma_total_without(numbers.remove(id), one);
        assert(numbers.remove(one).remove(id) =~= numbers.remove(id).remove(one));
    }
}

proof fn lemma_total_with(numbers: Map<u64, u64>, id: u64, n: u64)
    requires
        numbers.dom().finite(),
    ensures
        numbers.insert(id, n).dom().finite(),
        total_of(numbers.insert(id, n)) == total_of(numbers) + n - if numbers.contains_key(id) {
            numbers[id] as int
        } else {
            0
        },
{
    let after = numbers.insert(id, n);
    assert(after.dom() =~= numbers.dom().insert(id));
    lemma_total_without(after, id);
    assert(after.remove(id) =~= numbers.remove(id));
    if numbers.contains_key(id) {
        lemma_total_without(numbers, id);
    } else {
        assert(numbers.remove(id) =~= numbers);
    }
}

proof fn lemma_increasing_prefix(arrivals: Seq<Arrival>)
    requires
        increasing(arrivals),
        arrivals.len() > 0,
    ensures
        increasing(arrivals.drop_last()),
{
    let before = arrivals.drop_last();
    assert forall|i: int| 0 <= i < before.len() implies (decoded((#[trigger] before[i]).data)
        matches Some(h) ==> h.seq < u64::MAX) by {
        assert(before[i] == arrivals[i]);
    }
    assert forall|id: u64, i: int, j: int|
        0 <= i < j < before.len() && #[trigger] before[i].is_on(id)
            && #[trigger] before[j].is_on(id) implies before[i].seq() < before[j].seq() by {
        assert(before[i] == arrivals[i] && before[j] == arrivals[j]);
    }
}

proof fn lemma_expected_is_last(arrivals: Seq<Arrival>, id: u64)
    requires
        increasing(arrivals),
    ensures
        ({
            let s = receive_all(StatsView::fresh(), arrivals);
            &&& s.expected.contains_key(id) <==> exists|i: int|
                0 <= i < arrivals.len() && #[trigger] arrivals[i].is_on(id)
            &&& forall|i: int|
                0 <= i < arrivals.len() && #[trigger] arrivals[i].is_on(id) ==> arrivals[i].seq()
                    < s.next_expected(id)
            &&& s.expected.contains_key(id) ==> exists|i: int|
                0 <= i < arrivals.len() && #[trigger] arrivals[i].is_on(id) && arrivals[i].seq() + 1
                    == s.next_expected(id)
        }),
    decreases arrivals.len(),
{
    if arrivals.len() > 0 {
        let before = arrivals.drop_last();
        let last = arrivals.len() - 1;
        lemma_increasing_prefix(arrivals);
        lemma_expected_is_last(before, id);
        assert(forall|i: int| 0 <= i < before.len() ==> before[i] == arrivals[i]);
        assert(arrivals.last() == arrivals[last]);
        let s = receive_all(StatsView::fresh(), arrivals);
        let t = receive_all(StatsView::fresh(), before);
        if arrivals[last].is_on(id) {
            assert(s.next_expected(id) == arrivals[last].seq() + 1);
        } else {
            assert(s.next_expected(id) == t.next_expected(id));
            assert(s.expected.contains_key(id) == t.expected.contains_key(id));
            if t.expected.contains_key(id) {
                let i = choose|i: int|
                    0 <= i < before.len() && #[trigger] before[i].is_on(id) && before[i].seq() + 1
                        == t.next_expected(id);
                assert(arrivals[i].is_on(id));
            }
        }
        assert forall|i: int| 0 <= i < arrivals.len() && #[trigger] arrivals[i].is_on(
            id,
        ) implies arrivals[i].seq() < s.next_expected(id) by {
            if i < last {
                assert(before[i].is_on(id));
            }
        }
    }
}

/// What should come next on a stream, where its numbers increase, is the number behind the last
/// that came.
pub proof fn law_last_number_of_a_stream(arrivals: Seq<Arrival>, id: u64, i: int)
    requires
        increasing(arrivals),
        0 <= i < arrivals.len(),
        arrivals[i].is_on(id),
        forall|j: int| i < j < arrivals.len() ==> !(#[trigger] arrivals[j]).is_on(id),
    ensures
        receive_all(StatsView::fresh(), arrivals).expected.contains_key(id),
        receive_all(StatsView::fresh(), arrivals).expected[id] == arrivals[i].seq() + 1,
{
    let s = receive_all(StatsView::fresh(), arrivals);
    lemma_expected_is_last(arrivals, id);
    let k = choose|k: int|
        0 <= k < arrivals.len() && #[trigger] arrivals[k].is_on(id) && arrivals[k].seq() + 1
            == s.next_expected(id);
    if k < i {
        assert(arrivals[k].seq() < arrivals[i].seq());
    }
}

/// Where the numbers of each stream increase, the messages that came and those found missing make
/// up all numbers of all streams, up to the last that came on each.
pub proof fn law_received_and_lost_are_all(arrivals: Seq<Arrival>)
    requires
        increasing(arrivals),
    ensures
        receive_all(StatsView::fresh(), arrivals).expected.dom().finite(),
        with_header(arrivals) + receive_all(StatsView::fresh(), arrivals).lost == total_of(
            receive_all(StatsView::fresh(), arrivals).expected,
        ),
    decreases arrivals.len(),
{
    if arrivals.len() > 0 {
        let before = arrivals.drop_last();
        lemma_increasing_prefix(arrivals);
        law_received_and_lost_are_all(before);
        if let Some(h) = decoded(arrivals.last().data) {
            lemma_not_behind(arrivals);
            let t = receive_all(StatsView::fresh(), before);
            assert(arrivals[arrivals.len() - 1] == arrivals.last());
            lemma_total_with(t.expected, h.stream_id, (h.seq + 1) as u64);
        }
    }
}

proof fn lemma_not_behind(arrivals: Seq<Arrival>)
    requires
        increasing(arrivals),
        arrivals.len() > 0,
        decoded(arrivals.last().data) is Some,
    ensures
        ({
            let h = decoded(arrivals.last().data)->0;
            receive_all(StatsView::fresh(), arrivals.drop_last()).next_expected(h.stream_id)
                <= h.seq
        }),
{
    let before = arrivals.drop_last();
    let last = arrivals.len() - 1;
    let id = decoded(arrivals.last().data)->0.stream_id;
    lemma_increasing_prefix(arrivals);
    lemma_expected_is_last(before, id);
    let t = receive_all(StatsView::fresh(), before);
    if t.expected.contains_key(id) {
        let i = choose|i: int|
            0 <= i < before.len() && #[trigger] before[i].is_on(id) && before[i].seq() + 1
                == t.next_expected(id);
        assert(before[i] == arrivals[i]);
        assert(arrivals[i].is_on(id) && arrivals[last].is_on(id));
    }
}

/// Where the numbers of each stream increase, nothing is found missing exactly if no stream has a
/// gap.
pub proof fn law_no_loss_means_no_gap(arrivals: Seq<Arrival>)
    requires
        increasing(arrivals),
    ensures
        receive_all(StatsView::fresh(), arrivals).lost == 0 <==> gapless(
            StatsView::fresh(),
            arrivals,
        ),
    decreases arrivals.len(),
{
    let s = StatsView::fresh();
    if gapless(s, arrivals) {
        law_no_gap_no_loss(s, arrivals, 0);
    }
    if receive_all(s, arrivals).lost == 0 && arrivals.len() > 0 {
        let before = arrivals.drop_last();
        let last = arrivals.len() - 1;
        lemma_increasing_prefix(arrivals);
        law_no_loss_means_no_gap(before);
        assert(arrivals[last] == arrivals.last());
        assert forall|i: int|
            0 <= i < arrivals.len() && decoded((#[trigger] arrivals[i]).data) is Some implies {
            let h = decoded(arrivals[i].data)->0;
            &&& h.seq < u64::MAX
            &&& h.seq == s.next_expected(h.stream_id) + count_on(arrivals.take(i), h.stream_id)
        } by {
            let h = decoded(arrivals[i].data)->0;
            if i < last {
                assert(before[i] == arrivals[i]);
                assert(before.take(i) =~= arrivals.take(i));
            } else {
                assert(arrivals.take(i) =~= before);
                lemma_not_behind(arrivals);
                law_no_gap_no_loss(s, before, h.stream_id);
            }
        }
    }
}

/// What should come next on a stream depends on the messages of that stream alone, however they
/// are mixed with those of others.
pub proof fn law_streams_are_independent(s: StatsView, arrivals: Seq<Arrival>, stream_id: u64)
    ensures
        receive_all(s, arrivals).next_expected(stream_id) == receive_all(
            s,
            arrivals.filter(|a: Arrival| a.is_on(stream_id)),
        ).next_expected(stream_id),
    decreases arrivals.len(),
{
    let on = |a: Arrival| a.is_on(stream_id);
    reveal(Seq::filter);
    if arrivals.len() > 0 {
        let before = arrivals.drop_last();
        law_streams_are_independent(s, before, stream_id);
        if on(arrivals.last()) {
            assert(arrivals.filter(on) =~= before.filter(on).push(arrivals.last()));
            assert(arrivals.filter(on).drop_last() =~= before.filter(on));
        }
    }
}

/// A message that arrives out of turn, behind what should have come, is not counted as a loss;
/// but what should come next falls back behind it.
pub proof fn law_late_message(s: StatsView, data: Seq<u8>, recv_ns: u64)
    requires
        decoded(data) matches Some(h) && h.seq < s.next_expected(h.stream_id),
    ensures
        s.receive(data, recv_ns).lost == s.lost,
        s.receive(data, recv_ns).next_expected(decoded(data)->0.stream_id) == decoded(data)->0.seq
            + 1,
{
}

/// Losses are never taken back.
pub proof fn law_losses_only_grow(s: StatsView, arrivals: Seq<Arrival>)
    ensures
        s.lost <= receive_all(s, arrivals).lost,
    decreases arrivals.len(),
{
    if arrivals.len() > 0 {
        law_losses_only_grow(s, arrivals.drop_last());
    }
}

/// Statistics can be merged in any grouping, and in any order as far as counts and latencies go;
/// merging with the statistics of nothing changes nothing.
pub proof fn law_merge_order(a: StatsView, b: StatsView, c: StatsView)
    ensures
        a.merge(b).merge(c) == a.merge(b.merge(c)),
        a.merge(b).received == b.merge(a).received,
        a.merge(b).bytes == b.merge(a).bytes,
        a.merge(b).lost == b.merge(a).lost,
        a.merge(b).levels == b.merge(a).levels,
        a.merge(StatsView::fresh()) == a,
{
    assert(a.merge(b).merge(c) =~= a.merge(b.merge(c)));
    assert(a.merge(b).levels =~= b.merge(a).levels);
    assert(a.merge(StatsView::fresh()) =~= a);
}

/// Messages shared out between two consumers whose statistics are then merged count for as many
/// messages, bytes and latencies as they would with one consumer.
pub proof fn law_sharing_out_keeps_counts(a: Seq<Arrival>, b: Seq<Arrival>)
    ensures
        ({
            let merged = receive_all(StatsView::fresh(), a).merge(
                receive_all(StatsView::fresh(), b),
            );
            let together = receive_all(StatsView::fresh(), a + b);
            &&& merged.received == together.received
            &&& merged.bytes == together.bytes
            &&& merged.levels == together.levels
        }),
    decreases b.len(),
{
    let merged = receive_all(StatsView::fresh(), a).merge(receive_all(StatsView::fresh(), b));
    let together = receive_all(StatsView::fresh(), a + b);
    if b.len() == 0 {
        assert(a + b =~= a);
        assert(merged.levels =~= together.levels);
    } else {
        law_sharing_out_keeps_counts(a, b.drop_last());
        assert((a + b).drop_last() =~= a + b.drop_last());
        assert(merged.levels =~= together.levels);
    }
}

/// Whether no stream has messages on both sides.
pub open spec fn apart(a: Seq<Arrival>, b: Seq<Arrival>) -> bool {
    forall|id: u64, i: int, j: int|
        0 <= i < a.len() && 0 <= j < b.len() && #[trigger] a[i].is_on(id)
            ==> !(#[trigger] b[j].is_on(id))
}

/// Messages shared out between two consumers so that each stream goes to one of them come to the
/// same losses as with one consumer.
pub proof fn law_sharing_out_streams_keeps_losses(a: Seq<Arrival>, b: Seq<Arrival>)
    requires
        apart(a, b),
    ensures
        receive_all(StatsView::fresh(), a).merge(receive_all(StatsView::fresh(), b)).lost
            == receive_all(StatsView::fresh(), a + b).lost,
    decreases b.len(),
{
    if b.len() == 0 {
        assert(a + b =~= a);
    } else {
        let before = b.drop_last();
        assert(apart(a, before)) by {
            assert forall|id: u64, i: int, j: int|
                0 <= i < a.len() && 0 <= j < before.len() && #[trigger] a[i].is_on(id) implies !(
            #[trigger] before[j].is_on(id)) by {
                assert(before[j] == b[j]);
            }
        }
        law_sharing_out_streams_keeps_losses(a, before);
        assert((a + b).drop_last() =~= a + before);
        if let Some(h) = decoded(b.last().data) {
            assert(b[b.len() - 1].is_on(h.stream_id));
            assert forall|i: int| 0 <= i < a.len() implies !(#[trigger] a[i]).is_on(
                h.stream_id,
            ) by {
                if a[i].is_on(h.stream_id) {
                    assert(!b[b.len() - 1].is_on(h.stream_id));
                }
            }
            lemma_untouched_stream(a, before, h.stream_id);
        }
    }
}

proof fn lemma_untouched_stream(a: Seq<Arrival>, b: Seq<Arrival>, stream_id: u64)
    requires
        forall|i: int| 0 <= i < a.len() ==> !(#[trigger] a[i]).is_on(stream_id),
    ensures
        receive_all(StatsView::fresh(), a + b).next_expected(stream_id) == receive_all(
            StatsView::fresh(),
            b,
        ).next_expected(stream_id),
    decreases a.len() + b.len(),
{
    if b.len() > 0 {
        lemma_untouched_stream(a, b.drop_last(), stream_id);
        assert((a + b).drop_last() =~= a + b.drop_last());
    } else if a.len() > 0 {
        let before = a.drop_last();
        assert(forall|i: int| 0 <= i < before.len() ==> before[i] == a[i]);
        lemma_untouched_stream(before, b, stream_id);
        assert((a + b).drop_last() =~= before + b);
        assert(!a[a.len() - 1].is_on(stream_id));
    }
}

/// A message as a producer sends it: a buffer, and the header written into it.
pub struct SentMessage {
    pub buf: Seq<u8>,
    pub header: Header,
}

/// Whether the messages are numbered one after another, from 0, and all carry the id of one stream.
pub open spec fn numbered(sent: Seq<SentMessage>, stream_id: u64) -> bool {
    forall|i: int|
        0 <= i < sent.len() ==> {
            &&& (#[trigger] sent[i]).buf.len() >= HEADER_LEN
            &&& sent[i].header.seq == i
            &&& sent[i].header.stream_id == stream_id
        }
}

/// Where everything that a producer task has sent arrives in order, a consumer finds as many
/// messages as were sent, and no loss.
pub proof fn law_complete_delivery(
    sent: Seq<SentMessage>,
    arrivals: Seq<Arrival>,
    stream_id: u64,
)
    requires
        numbered(sent, stream_id),
        sent.len() <= u64::MAX,
        arrivals.len() == sent.len(),
        forall|i: int|
            0 <= i < sent.len() ==> (#[trigger] arrivals[i]).data == encoded(
                sent[i].buf,
                sent[i].header,
            ),
    ensures
        receive_all(StatsView::fresh(), arrivals).received == sent.len(),
        receive_all(StatsView::fresh(), arrivals).lost == 0,
        receive_all(StatsView::fresh(), arrivals).levels.len() == sent.len(),
{
    assert forall|i: int| 0 <= i < arrivals.len() implies decoded((#[trigger] arrivals[i]).data)
        == Some(sent[i].header) && arrivals[i].is_on(stream_id) && arrivals[i].seq() == i by {
        law_header_round_trip(sent[i].buf, sent[i].header);
        assert(sent[i].header.seq == i);
    }
    law_every_arrival_counts(StatsView::fresh(), arrivals);
    lemma_all_with_header(arrivals);
    if arrivals.len() > 0 {
        assert(in_order_on(arrivals, stream_id));
        assert(arrivals.last() == arrivals[arrivals.len() - 1]);
        law_losses_are_the_missing_numbers(StatsView::fresh(), arrivals, stream_id);
    }
}

proof fn lemma_all_with_header(arrivals: Seq<Arrival>)
    requires
        forall|i: int|
            0 <= i < arrivals.len() ==> decoded((#[trigger] arrivals[i]).data) is Some,
    ensures
        with_header(arrivals) == arrivals.len(),
    decreases arrivals.len(),
{
    if arrivals.len() > 0 {
        let before = arrivals.drop_last();
        assert(forall|i: int| 0 <= i < before.len() ==> before[i] == arrivals[i]);
        lemma_all_with_header(before);
        assert(decoded(arrivals[arrivals.len() - 1].data) is Some);
    }
}

} // verus!
