//! The wire format of a benchmark message: a fixed header, then payload bytes.
//!
//! The header holds three big-endian numbers of eight bytes each: the time at which the producer
//! sent the message (nanoseconds since the Unix epoch), the sequence number of the message within
//! its stream, and the stream id.
use vstd::arithmetic::power::pow;
use vstd::prelude::*;

verus! {

/// Bytes that the header takes at the start of a message.
pub const HEADER_LEN: usize = 24;

/// What the header of a message says.
#[derive(Debug, Clone, Copy, PartialEq, Eq, Structural)]
pub struct Header {
    pub producer_ts_ns: u64,
    pub seq: u64,
    pub stream_id: u64,
}

/// 256 to the power `len`: how many numbers `len` bytes can tell apart.
pub open spec fn byte_range(len: nat) -> nat
    decreases len,
{
    if len == 0 {
        1
    } else {
        256 * byte_range((len - 1) as nat)
    }
}

/// The last `len` bytes of a number in big-endian order.
pub open spec fn be_bytes(n: nat, len: nat) -> Seq<u8>
    decreases len,
{
    if len == 0 {
        Seq::empty()
    } else {
        be_bytes(n / 256, (len - 1) as nat).push((n % 256) as u8)
    }
}

/// The number that a sequence of bytes stands for in big-endian order.
pub open spec fn be_value(s: Seq<u8>) -> nat
    decreases s.len(),
{
    if s.len() == 0 {
        0
    } else {
        256 * be_value(s.drop_last()) + s.last() as nat
    }
}

/// The header in bytes.
pub open spec fn header_bytes(h: Header) -> Seq<u8> {
    be_bytes(h.producer_ts_ns as nat, 8) + be_bytes(h.seq as nat, 8) + be_bytes(
        h.stream_id as nat,
        8,
    )
}

/// A message with its header overwritten. A message too short for a header stays as it is.
pub open spec fn encoded(buf: Seq<u8>, h: Header) -> Seq<u8> {
    if buf.len() < HEADER_LEN {
        buf
    } else {
        header_bytes(h) + buf.skip(HEADER_LEN as int)
    }
}

/// The header of a message; `None` where the message is too short to hold one.
pub open spec fn decoded(data: Seq<u8>) -> Option<Header> {
    if data.len() < HEADER_LEN {
        None
    } else {
        Some(
            Header {
                producer_ts_ns: be_value(data.subrange(0, 8)) as u64,
                seq: be_value(data.subrange(8, 16)) as u64,
                stream_id: be_value(data.subrange(16, 24)) as u64,
            },
        )
    }
}

proof fn lemma_be_bytes_len(n: nat, len: nat)
    ensures
        be_bytes(n, len).len() == len,
    decreases len,
{
    if len > 0 {
        lemma_be_bytes_len(n / 256, (len - 1) as nat);
    }
}

proof fn lemma_value_of_bytes(n: nat, len: nat)
    requires
        n < byte_range(len),
    ensures
        be_value(be_bytes(n, len)) == n,
    decreases len,
{
    if len > 0 {
        let rest = (len - 1) as nat;
        lemma_value_of_bytes(n / 256, rest);
        assert(be_bytes(n, len).drop_last() =~= be_bytes(n / 256, rest));
    }
}

proof fn lemma_bytes_of_value(s: Seq<u8>)
    ensures
        be_value(s) < byte_range(s.len()),
        be_bytes(be_value(s), s.len()) == s,
    decreases s.len(),
{
    if s.len() > 0 {
        lemma_bytes_of_value(s.drop_last());
        assert(be_bytes(be_value(s), s.len()) =~= s);
    } else {
        assert(be_bytes(be_value(s), 0) =~= s);
    }
}

proof fn lemma_byte_range_8()
    ensures
        byte_range(8) == 0x1_0000_0000_0000_0000,
{
    reveal_with_fuel(byte_range, 9);
}

proof fn lemma_byte_range_monotone(a: nat, b: nat)
    requires
        a <= b,
    ensures
        byte_range(a) <= byte_range(b),
    decreases b,
{
    if a < b {
        lemma_byte_range_monotone(a, (b - 1) as nat);
    }
}

/// The header has 24 bytes, whatever it says.
pub proof fn law_header_length(h: Header)
    ensures
        header_bytes(h).len() == HEADER_LEN,
{
    lemma_be_bytes_len(h.producer_ts_ns as nat, 8);
    lemma_be_bytes_len(h.seq as nat, 8);
    lemma_be_bytes_len(h.stream_id as nat, 8);
}

/// What was written into a message is read back from it; a message that is too short carries no
/// header. Either way the length stays, and so does every byte behind the header.
pub proof fn law_header_round_trip(buf: Seq<u8>, h: Header)
    ensures
        buf.len() >= HEADER_LEN ==> decoded(encoded(buf, h)) == Some(h),
        buf.len() < HEADER_LEN ==> decoded(encoded(buf, h)) is None,
        encoded(buf, h).len() == buf.len(),
        forall|i: int| HEADER_LEN <= i < buf.len() ==> encoded(buf, h)[i] == buf[i],
{
    law_header_length(h);
    lemma_be_bytes_len(h.producer_ts_ns as nat, 8);
    lemma_be_bytes_len(h.seq as nat, 8);
    lemma_be_bytes_len(h.stream_id as nat, 8);
    if buf.len() >= HEADER_LEN {
        let e = encoded(buf, h);
        assert(e.subrange(0, 8) =~= be_bytes(h.producer_ts_ns as nat, 8));
        assert(e.subrange(8, 16) =~= be_bytes(h.seq as nat, 8));
        assert(e.subrange(16, 24) =~= be_bytes(h.stream_id as nat, 8));
        lemma_byte_range_8();
        lemma_value_of_bytes(h.producer_ts_ns as nat, 8);
        lemma_value_of_bytes(h.seq as nat, 8);
        lemma_value_of_bytes(h.stream_id as nat, 8);
    }
}

/// Writing the header that a message already carries changes nothing.
pub proof fn law_header_rewrite(data: Seq<u8>)
    ensures
        decoded(data) matches Some(h) ==> encoded(data, h) == data,
{
    if data.len() >= HEADER_LEN {
        lemma_byte_range_8();
        lemma_bytes_of_value(data.subrange(0, 8));
        lemma_bytes_of_value(data.subrange(8, 16));
        lemma_bytes_of_value(data.subrange(16, 24));
        assert(encoded(data, decoded(data)->0) =~= data);
    }
}

/// Two messages of one length hold the same bytes if and only if they carry the same header and
/// the same bytes behind it.
pub proof fn law_header_and_payload_determine_message(a: Seq<u8>, b: Seq<u8>)
    requires
        a.len() == b.len(),
        a.len() >= HEADER_LEN,
    ensures
        a == b <==> decoded(a) == decoded(b) && a.skip(HEADER_LEN as int) == b.skip(
            HEADER_LEN as int,
        ),
{
    law_header_rewrite(a);
    law_header_rewrite(b);
}

fn write_be(buf: &mut Vec<u8>, at: usize, n: u64)
    requires
        at + 8 <= old(buf)@.len(),
    ensures
        final(buf)@ == old(buf)@.take(at as int) + be_bytes(n as nat, 8) + old(buf)@.skip(at + 8),
{
    let mut rest: u64 = n;
    let mut k: usize = 8;
    let ghost start = buf@;
    let size: usize = buf.len();
    while k > 0
        invariant
            k <= 8,
            at + 8 <= size,
            size == start.len(),
            buf@.len() == start.len(),
            forall|i: int| 0 <= i < at + k ==> buf@[i] == start[i],
            forall|i: int| at + 8 <= i < start.len() ==> buf@[i] == start[i],
            be_bytes(n as nat, 8) =~= be_bytes(rest as nat, k as nat) + buf@.subrange(
                at + k,
                at + 8,
            ),
        decreases k,
    {
        let ghost before = buf@;
        k = k - 1;
        buf.set(at + k, (rest % 256) as u8);
        assert(buf@.subrange(at + k, at + 8) =~= seq![(rest % 256) as u8] + before.subrange(
            at + k + 1,
            at + 8,
        ));
        rest = rest / 256;
    }
    assert(buf@ =~= start.take(at as int) + be_bytes(n as nat, 8) + start.skip(at + 8)) by {
        lemma_be_bytes_len(n as nat, 8);
        assert(buf@.subrange(at as int, at + 8) =~= be_bytes(n as nat, 8));
        assert forall|i: int| at <= i < at + 8 implies buf@[i] == be_bytes(n as nat, 8)[i - at] by {
            assert(buf@.subrange(at as int, at + 8)[i - at] == buf@[i]);
        }
    }
}

fn read_be(data: &[u8], at: usize) -> (n: u64)
    requires
        at + 8 <= data@.len(),
    ensures
        n == be_value(data@.subrange(at as int, at + 8)),
{
    let mut n: u64 = 0;
    let mut k: usize = 0;
    let size: usize = data.len();
    while k < 8
        invariant
            k <= 8,
            at + 8 <= size,
            size == data@.len(),
            n == be_value(data@.subrange(at as int, at + k)),
        decreases 8 - k,
    {
        proof {
            lemma_bytes_of_value(data@.subrange(at as int, at + k));
            lemma_byte_range_8();
            lemma_byte_range_monotone((k + 1) as nat, 8);
            assert(data@.subrange(at as int, at + k + 1).drop_last() =~= data@.subrange(
                at as int,
                at + k,
            ));
        }
        n = n * 256 + data[at + k] as u64;
        k = k + 1;
    }
    n
}

/// Writes the tracking header into a message. A buffer too small for the header is left alone;
/// such a message is counted when it arrives, but adds nothing to latency or loss.
pub fn encode_message(buf: &mut Vec<u8>, producer_ts_ns: u64, seq: u64, stream_id: u64)
    ensures
        final(buf)@ == encoded(old(buf)@, Header { producer_ts_ns, seq, stream_id }),
{
    if buf.len() < HEADER_LEN {
        return ;
    }
    write_be(buf, 0, producer_ts_ns);
    proof {
        lemma_be_bytes_len(producer_ts_ns as nat, 8);
        lemma_be_bytes_len(seq as nat, 8);
        lemma_be_bytes_len(stream_id as nat, 8);
    }
    write_be(buf, 8, seq);
    write_be(buf, 16, stream_id);
    assert(buf@ =~= encoded(old(buf)@, Header { producer_ts_ns, seq, stream_id }));
}

/// Reads the tracking header of a message: timestamp, sequence number, stream id.
pub fn decode_header(data: &[u8]) -> (r: Option<(u64, u64, u64)>)
    ensures
        r == match decoded(data@) {
            Some(h) => Some((h.producer_ts_ns, h.seq, h.stream_id)),
            None => None,
        },
{
    if data.len() < HEADER_LEN {
        return None;
    }
    let ts: u64 = read_be(data, 0);
    let seq: u64 = read_be(data, 8);
    let stream_id: u64 = read_be(data, 16);
    Some((ts, seq, stream_id))
}

/// The header lays out its three numbers one after another, eight bytes each, the highest byte
/// first.
pub proof fn law_header_layout(h: Header, k: int)
    requires
        0 <= k < 8,
    ensures
        header_bytes(h)[k] == h.producer_ts_ns as int / pow(256, (7 - k) as nat) % 256,
        header_bytes(h)[8 + k] == h.seq as int / pow(256, (7 - k) as nat) % 256,
        header_bytes(h)[16 + k] == h.stream_id as int / pow(256, (7 - k) as nat) % 256,
{
    lemma_be_bytes_len(h.producer_ts_ns as nat, 8);
    lemma_be_bytes_len(h.seq as nat, 8);
    lemma_be_bytes_len(h.stream_id as nat, 8);
    lemma_byte_at(h.producer_ts_ns as nat, 8, k);
    lemma_byte_at(h.seq as nat, 8, k);
    lemma_byte_at(h.stream_id as nat, 8, k);
}

proof fn lemma_byte_at(n: nat, len: nat, k: int)
    requires
        0 <= k < len,
    ensures
        be_bytes(n, len).len() == len,
        be_bytes(n, len)[k] == n as int / pow(256, (len - 1 - k) as nat) % 256,
    decreases len,
{
    lemma_be_bytes_len(n, len);
    let rest = (len - 1) as nat;
    lemma_be_bytes_len(n / 256, rest);
    if k < rest {
        lemma_byte_at(n / 256, rest, k);
        let e = (rest - 1 - k) as nat;
        reveal(pow);
        vstd::arithmetic::power::lemma_pow_positive(256, e);
        vstd::arithmetic::div_mod::lemma_div_denominator(n as int, 256, pow(256, e));
        assert(pow(256, (e + 1) as nat) == 256 * pow(256, e));
    } else {
        reveal(pow);
        assert(pow(256, 0) == 1);
        assert(n as int / 1 == n);
    }
}

/// Writing a header replaces the first 24 bytes of a message and nothing behind them.
pub proof fn law_header_in_place(buf: Seq<u8>, h: Header, i: int)
    requires
        24 <= buf.len(),
        0 <= i < buf.len(),
    ensures
        encoded(buf, h).len() == buf.len(),
        i < 24 ==> encoded(buf, h)[i] == header_bytes(h)[i],
        i >= 24 ==> encoded(buf, h)[i] == buf[i],
{
    law_header_length(h);
}

/// A message has a header exactly if it is 24 bytes long or longer. A shorter one is left alone.
pub proof fn law_short_messages_have_no_header(data: Seq<u8>, h: Header)
    ensures
        decoded(data) is Some <==> data.len() >= 24,
        data.len() < 24 ==> encoded(data, h) == data,
{
}

} // verus!
