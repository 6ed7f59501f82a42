//! What fills a message behind its header.
use crate::config::PayloadType;
use crate::message::{decoded, HEADER_LEN};
use rand::Rng;
use vstd::prelude::*;

verus! {

/// `rand::Rng::fill` on the generator that `rand::thread_rng` returns: as many random bytes as
/// asked for. Nothing is said of their values.
#[verifier::external_body]
fn random_bytes(len: usize) -> (r: Vec<u8>)
    ensures
        r@.len() == len,
{
    let mut r = vec![0u8; len];
    rand::thread_rng().fill(&mut r[..]);
    r
}

/// A number in four bytes, the lowest first.
pub open spec fn le_bytes(n: u32) -> Seq<u8> {
    seq![
        (n % 256) as u8,
        (n / 256 % 256) as u8,
        (n / 65_536 % 256) as u8,
        (n / 16_777_216) as u8,
    ]
}

/// How many 32-bit samples fit behind the header.
pub open spec fn sample_room(len: int) -> int {
    if len < HEADER_LEN {
        0
    } else {
        (len - HEADER_LEN) / 4
    }
}

/// Numbers in four bytes each, one after another.
pub open spec fn samples_bytes(samples: Seq<u32>) -> Seq<u8>
    decreases samples.len(),
{
    if samples.len() == 0 {
        Seq::empty()
    } else {
        samples_bytes(samples.drop_last()) + le_bytes(samples.last())
    }
}

/// A message with samples behind its header. A message too short for a header stays as it is.
pub open spec fn with_samples(buf: Seq<u8>, samples: Seq<u32>) -> Seq<u8> {
    if buf.len() < HEADER_LEN {
        buf
    } else {
        buf.take(HEADER_LEN as int) + samples_bytes(samples) + buf.skip(
            HEADER_LEN + 4 * samples.len(),
        )
    }
}

proof fn lemma_samples_len(samples: Seq<u32>)
    ensures
        samples_bytes(samples).len() == 4 * samples.len(),
    decreases samples.len(),
{
    if samples.len() > 0 {
        lemma_samples_len(samples.drop_last());
    }
}

/// How many 32-bit samples fit behind the header of a message.
pub fn sample_count(len: usize) -> (r: usize)
    ensures
        r == sample_room(len as int),
{
    if len < HEADER_LEN {
        0
    } else {
        (len - HEADER_LEN) / 4
    }
}

/// Fills a message behind its header with 32-bit samples, given by their bits. What is left over
/// at the end, less than a sample, stays as it was.
pub fn fill_float32_payload(buf: &mut Vec<u8>, samples: &[u32])
    requires
        samples@.len() == sample_room(old(buf)@.len() as int),
    ensures
        final(buf)@ == with_samples(old(buf)@, samples@),
{
    let ghost start = buf@;
    let n: usize = samples.len();
    let size: usize = buf.len();
    proof {
        lemma_samples_len(Seq::empty());
    }
    if size < HEADER_LEN {
        return ;
    }
    let mut i: usize = 0;
    assert(samples@.take(0) =~= Seq::empty());
    assert(buf@ =~= start.take(24) + samples_bytes(samples@.take(0)) + start.skip(24));
    while i < n
        invariant
            i <= n,
            n == samples@.len(),
            size == start.len(),
            24 + 4 * n <= size,
            buf@ == start.take(24) + samples_bytes(samples@.take(i as int)) + start.skip(
                24 + 4 * i,
            ),
            buf@.len() == size,
        decreases n - i,
    {
        let at: usize = HEADER_LEN + 4 * i;
        let word: u32 = samples[i];
        buf.set(at, (word % 256) as u8);
        buf.set(at + 1, (word / 256 % 256) as u8);
        buf.set(at + 2, (word / 65_536 % 256) as u8);
        buf.set(at + 3, (word / 16_777_216) as u8);
        proof {
            let done = samples@.take(i as int);
            let next = samples@.take(i + 1);
            lemma_samples_len(done);
            lemma_samples_len(next);
            assert(next.drop_last() =~= done);
            assert(buf@ =~= start.take(24) + samples_bytes(next) + start.skip(24 + 4 * (i + 1)));
        }
        i = i + 1;
    }
    assert(samples@.take(n as int) =~= samples@);
}

/// Puts bytes into a message behind its header.
pub fn put_payload(buf: &mut Vec<u8>, payload: &[u8])
    requires
        old(buf)@.len() == HEADER_LEN + payload@.len(),
    ensures
        final(buf)@ == old(buf)@.take(HEADER_LEN as int) + payload@,
{
    let n: usize = payload.len();
    let size: usize = buf.len();
    let ghost start = buf@;
    for i in 0..n
        invariant
            n == payload@.len(),
            size == HEADER_LEN + n,
            buf@.len() == size,
            forall|k: int| 0 <= k < HEADER_LEN ==> #[trigger] buf@[k] == start[k],
            forall|k: int| 0 <= k < i ==> buf@[HEADER_LEN + k] == #[trigger] payload@[k],
    {
        buf.set(HEADER_LEN + i, payload[i]);
    }
    assert(buf@ =~= start.take(HEADER_LEN as int) + payload@);
}

/// Fills a message behind its header with random bytes: `put_payload` of whatever the generator
/// draws. The header and the length stay as they were; which bytes come is left to chance.
pub fn fill_random_payload(buf: &mut Vec<u8>)
    requires
        old(buf)@.len() >= HEADER_LEN,
    ensures
        final(buf)@.len() == old(buf)@.len(),
        final(buf)@.take(HEADER_LEN as int) == old(buf)@.take(HEADER_LEN as int),
{
    let payload = random_bytes(buf.len() - HEADER_LEN);
    put_payload(buf, payload.as_slice());
    assert(buf@.take(HEADER_LEN as int) =~= old(buf)@.take(HEADER_LEN as int));
}

/// How many samples the payload of a message takes: as many as fit where it consists of samples,
/// else none.
pub open spec fn samples_in(payload_type: PayloadType, len: int) -> int {
    match payload_type {
        PayloadType::Float32 => sample_room(len),
        PayloadType::RandomBytes => 0,
    }
}

/// How many samples the payload of a message takes: as many as fit where it consists of samples,
/// else none.
pub fn samples_needed(payload_type: PayloadType, len: usize) -> (r: usize)
    ensures
        r == samples_in(payload_type, len as int),
        r == match payload_type {
            PayloadType::Float32 => sample_room(len as int),
            PayloadType::RandomBytes => 0,
        },
{
    match payload_type {
        PayloadType::Float32 => sample_count(len),
        PayloadType::RandomBytes => 0,
    }
}

/// Fills a message behind its header with a payload of the wanted type, whichever broker it goes
/// to. Random bytes are drawn here, and which they are is left to chance.
pub fn fill_payload(buf: &mut Vec<u8>, payload_type: PayloadType, samples: &[u32])
    requires
        payload_type == PayloadType::Float32 ==> samples@.len() == sample_room(
            old(buf)@.len() as int,
        ),
        payload_type == PayloadType::RandomBytes ==> old(buf)@.len() >= HEADER_LEN,
    ensures
        match payload_type {
            PayloadType::Float32 => final(buf)@ == with_samples(old(buf)@, samples@),
            PayloadType::RandomBytes => final(buf)@.len() == old(buf)@.len()
                && final(buf)@.take(HEADER_LEN as int) == old(buf)@.take(HEADER_LEN as int),
        },
{
    match payload_type {
        PayloadType::Float32 => fill_float32_payload(buf, samples),
        PayloadType::RandomBytes => fill_random_payload(buf),
    }
}

/// Filling in samples changes neither the length nor the header of a message.
pub proof fn law_samples_keep_header(buf: Seq<u8>, samples: Seq<u32>)
    requires
        samples.len() == sample_room(buf.len() as int),
    ensures
        with_samples(buf, samples).len() == buf.len(),
        decoded(with_samples(buf, samples)) == decoded(buf),
{
    lemma_samples_len(samples);
    let filled = with_samples(buf, samples);
    if buf.len() >= HEADER_LEN {
        assert(filled.subrange(0, 8) =~= buf.subrange(0, 8));
        assert(filled.subrange(8, 16) =~= buf.subrange(8, 16));
        assert(filled.subrange(16, 24) =~= buf.subrange(16, 24));
    }
}

/// Samples stand one after another behind the header, four bytes each, the lowest byte first. As
/// many are written as fit, and what is left over at the end stays.
pub proof fn law_samples_in_place(buf: Seq<u8>, samples: Seq<u32>, k: int, i: int)
    requires
        buf.len() >= 24,
        samples.len() == sample_room(buf.len() as int),
        0 <= k < samples.len(),
        0 <= i < buf.len(),
    ensures
        ({
            let after = with_samples(buf, samples);
            let at = 24 + 4 * k;
            &&& after[at] == samples[k] % 256
            &&& after[at + 1] == samples[k] / 256 % 256
            &&& after[at + 2] == samples[k] / 65_536 % 256
            &&& after[at + 3] == samples[k] / 16_777_216
            &&& i < 24 || i >= 24 + 4 * samples.len() ==> after[i] == buf[i]
        }),
{
    lemma_samples_len(samples);
    lemma_sample_at(samples, k);
}

/// As many samples fit behind the header as there is room for, and no more. A message too short for
/// a header has none, and stays as it is.
pub proof fn law_room_for_samples(len: int, buf: Seq<u8>, samples: Seq<u32>)
    ensures
        len >= 24 ==> 24 + 4 * sample_room(len) <= len < 24 + 4 * (sample_room(len) + 1),
        len < 24 ==> sample_room(len) == 0,
        buf.len() < 24 ==> with_samples(buf, samples) == buf,
{
}

proof fn lemma_sample_at(samples: Seq<u32>, k: int)
    requires
        0 <= k < samples.len(),
    ensures
        samples_bytes(samples).len() == 4 * samples.len(),
        samples_bytes(samples)[4 * k] == samples[k] % 256,
        samples_bytes(samples)[4 * k + 1] == samples[k] / 256 % 256,
        samples_bytes(samples)[4 * k + 2] == samples[k] / 65_536 % 256,
        samples_bytes(samples)[4 * k + 3] == samples[k] / 16_777_216,
    decreases samples.len(),
{
    let before = samples.drop_last();
    lemma_samples_len(samples);
    lemma_samples_len(before);
    if k < before.len() {
        lemma_sample_at(before, k);
    }
}

/// A payload of samples takes all the room behind the header, up to less than a sample; one of
/// random bytes takes no samples.
pub proof fn law_samples_of_a_payload(len: int)
    requires
        len >= 24,
    ensures
        0 <= len - 24 - 4 * samples_in(PayloadType::Float32, len) < 4,
        samples_in(PayloadType::RandomBytes, len) == 0,
{
}

} // verus!
