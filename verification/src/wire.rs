//! The byte layout of a batch, as mathematics.
//!
//! ```text
//! [0]              operation_count                    (1 byte, N)
//! [1 .. 1+N)       payload_sizes                      (N bytes)
//! [1+N .. 1+2N)    handle_counts                      (N bytes)
//! [1+2N .. )       payloads[0] ++ .. ++ payloads[N-1] (payload_sizes[i] bytes each)
//! ```
//!
//! Bytes behind the last payload are tolerated and ignored.
use vstd::prelude::*;

verus! {

/// A decoded batch: four arrays aligned by the position of the sub-operation.
pub struct Batch {
    pub operation_count: u8,
    pub payload_sizes: Seq<u8>,
    pub handle_counts: Seq<u8>,
    pub payloads: Seq<Seq<u8>>,
}

impl Batch {
    /// The arrays all have `operation_count` entries, and every payload has
    /// the length that `payload_sizes` records for it.
    pub open spec fn wf(self) -> bool {
        &&& self.payload_sizes.len() == self.operation_count
        &&& self.handle_counts.len() == self.operation_count
        &&& self.payloads.len() == self.operation_count
        &&& forall|i: int|
            0 <= i < self.payloads.len() ==> #[trigger] self.payloads[i].len()
                == self.payload_sizes[i]
    }

    /// One of the arrays has more than 255 entries, or a payload more than
    /// 255 bytes: more than the one-byte fields of the layout can record.
    pub open spec fn over_limit(self) -> bool {
        ||| self.payload_sizes.len() > 255
        ||| self.handle_counts.len() > 255
        ||| self.payloads.len() > 255
        ||| exists|i: int| 0 <= i < self.payloads.len() && (#[trigger] self.payloads[i]).len() > 255
    }
}

/// The sum of the entries of `s`.
pub open spec fn total(s: Seq<u8>) -> int
    decreases s.len(),
{
    if s.len() == 0 {
        0
    } else {
        total(s.drop_last()) + s.last()
    }
}

/// The bytes that stand for `b`.
pub open spec fn encode_spec(b: Batch) -> Seq<u8> {
    seq![b.operation_count] + b.payload_sizes + b.handle_counts + b.payloads.flatten()
}

/// Where payload `i` begins in a buffer whose header records `sizes`.
pub open spec fn payload_start(sizes: Seq<u8>, i: int) -> int {
    1 + 2 * sizes.len() + total(sizes.take(i))
}

/// The number of bytes that the batch at the front of `bytes` occupies, if its
/// header is complete.
pub open spec fn needed_len(bytes: Seq<u8>) -> Option<int> {
    if bytes.len() == 0 || bytes.len() < 1 + 2 * bytes[0] {
        None
    } else {
        Some(1 + 2 * bytes[0] + total(bytes.subrange(1, 1 + bytes[0])))
    }
}

/// The batch at the front of `bytes`, or `None` where the buffer ends before
/// the batch does.
pub open spec fn decode_spec(bytes: Seq<u8>) -> Option<Batch> {
    match needed_len(bytes) {
        None => None,
        Some(needed) => if bytes.len() < needed {
            None
        } else {
            let n = bytes[0] as int;
            let sizes = bytes.subrange(1, 1 + n);
            Some(
                Batch {
                    operation_count: bytes[0],
                    payload_sizes: sizes,
                    handle_counts: bytes.subrange(1 + n, 1 + 2 * n),
                    payloads: Seq::new(
                        n as nat,
                        |i: int|
                            bytes.subrange(payload_start(sizes, i), payload_start(sizes, i + 1)),
                    ),
                },
            )
        },
    }
}

/// Taking one more entry adds that entry to the sum.
pub proof fn lemma_total_take_next(s: Seq<u8>, i: int)
    requires
        0 <= i < s.len(),
    ensures
        total(s.take(i + 1)) == total(s.take(i)) + s[i],
{
    assert(s.take(i + 1).drop_last() =~= s.take(i));
}

/// The sum of a prefix grows with the prefix.
pub proof fn lemma_total_take_grows(s: Seq<u8>, i: int, j: int)
    requires
        0 <= i <= j <= s.len(),
    ensures
        0 <= total(s.take(i)) <= total(s.take(j)) <= total(s),
    decreases s.len() - i,
{
    if i < j {
        lemma_total_take_grows(s, i + 1, j);
        lemma_total_take_next(s, i);
        lemma_total_nonnegative(s.take(i));
    } else if j < s.len() {
        lemma_total_take_grows(s, j + 1, s.len() as int);
        lemma_total_take_next(s, j);
        lemma_total_nonnegative(s.take(j));
    } else {
        assert(s.take(j) =~= s);
        lemma_total_nonnegative(s);
    }
}

/// A sum of bytes is not negative, and no larger than 255 for each entry.
pub proof fn lemma_total_nonnegative(s: Seq<u8>)
    ensures
        0 <= total(s) <= 255 * s.len(),
    decreases s.len(),
{
    if s.len() > 0 {
        lemma_total_nonnegative(s.drop_last());
    }
}

/// Payloads laid one behind the other take as many bytes as their sizes add
/// up to, and payload `i` lies where the sizes before it end.
pub proof fn lemma_flatten_layout(payloads: Seq<Seq<u8>>, sizes: Seq<u8>, i: int)
    requires
        payloads.len() == sizes.len(),
        forall|j: int| 0 <= j < payloads.len() ==> (#[trigger] payloads[j]).len() == sizes[j],
        0 <= i < payloads.len(),
    ensures
        payloads.flatten().len() == total(sizes),
        0 <= total(sizes.take(i)) <= total(sizes.take(i + 1)) <= total(sizes),
        payloads.flatten().subrange(total(sizes.take(i)), total(sizes.take(i + 1))) == payloads[i],
    decreases payloads.len(),
{
    broadcast use Seq::lemma_flatten_push;

    let front = payloads.drop_last();
    let front_sizes = sizes.drop_last();
    let last = payloads.len() - 1;
    assert(payloads =~= front.push(payloads.last()));
    lemma_total_take_grows(sizes, i, i + 1);
    lemma_total_take_grows(sizes, i + 1, sizes.len() as int);
    assert(sizes.take(last + 1) =~= sizes);
    lemma_flatten_len(front, front_sizes);
    if i < last {
        lemma_flatten_layout(front, front_sizes, i);
        assert(sizes.take(i) =~= front_sizes.take(i));
        assert(sizes.take(i + 1) =~= front_sizes.take(i + 1));
    }
}

/// Payloads laid one behind the other take as many bytes as their sizes add
/// up to.
pub proof fn lemma_flatten_len(payloads: Seq<Seq<u8>>, sizes: Seq<u8>)
    requires
        payloads.len() == sizes.len(),
        forall|j: int| 0 <= j < payloads.len() ==> (#[trigger] payloads[j]).len() == sizes[j],
    ensures
        payloads.flatten().len() == total(sizes),
    decreases payloads.len(),
{
    broadcast use Seq::lemma_flatten_push;

    if payloads.len() > 0 {
        lemma_flatten_len(payloads.drop_last(), sizes.drop_last());
        assert(payloads =~= payloads.drop_last().push(payloads.last()));
    }
}

/// Decoding undoes encoding, whatever bytes follow the encoded batch.
pub proof fn lemma_decode_encode(b: Batch, trailing: Seq<u8>)
    requires
        b.wf(),
    ensures
        decode_spec(encode_spec(b) + trailing) == Some(b),
        needed_len(encode_spec(b) + trailing) == Some(encode_spec(b).len() as int),
{
    let bytes = encode_spec(b) + trailing;
    let n = b.operation_count as int;
    lemma_flatten_len(b.payloads, b.payload_sizes);
    assert(bytes.subrange(1, 1 + n) =~= b.payload_sizes);
    assert(bytes.subrange(1 + n, 1 + 2 * n) =~= b.handle_counts);
    let decoded = decode_spec(bytes).unwrap();
    assert forall|i: int| 0 <= i < n implies #[trigger] decoded.payloads[i] == b.payloads[i] by {
        lemma_flatten_layout(b.payloads, b.payload_sizes, i);
    }
    assert(decoded.payloads =~= b.payloads);
}

/// Encoding and then decoding a well-formed batch gives the batch back.
pub proof fn lemma_round_trip(b: Batch)
    requires
        b.wf(),
    ensures
        decode_spec(encode_spec(b)) == Some(b),
{
    lemma_decode_encode(b, Seq::empty());
}

/// What decodes is well formed.
pub proof fn lemma_decoded_wf(bytes: Seq<u8>)
    requires
        decode_spec(bytes) is Some,
    ensures
        decode_spec(bytes).unwrap().wf(),
{
    let b = decode_spec(bytes).unwrap();
    let sizes = b.payload_sizes;
    assert forall|i: int| 0 <= i < b.payloads.len() implies #[trigger] b.payloads[i].len()
        == sizes[i] by {
        lemma_total_take_next(sizes, i);
        lemma_total_take_grows(sizes, i, i + 1);
        lemma_total_take_grows(sizes, i + 1, sizes.len() as int);
    }
}

/// Cutting a buffer short either leaves the decoded batch as it is, where the
/// cut lies at or behind the end of the batch, or makes the buffer undecodable:
/// a prefix never decodes to another batch.
pub proof fn lemma_decode_prefix(bytes: Seq<u8>, k: int)
    requires
        0 <= k <= bytes.len(),
        decode_spec(bytes) is Some,
    ensures
        needed_len(bytes) is Some,
        k >= needed_len(bytes).unwrap() ==> decode_spec(bytes.take(k)) == decode_spec(bytes),
        k < needed_len(bytes).unwrap() ==> decode_spec(bytes.take(k)) is None,
{
    let prefix = bytes.take(k);
    let n = bytes[0] as int;
    let sizes = bytes.subrange(1, 1 + n);
    lemma_total_take_grows(sizes, 0, 0);
    if k >= 1 + 2 * n {
        assert(prefix.subrange(1, 1 + n) =~= sizes);
        if k >= needed_len(bytes).unwrap() {
            assert(prefix.subrange(1 + n, 1 + 2 * n) =~= bytes.subrange(1 + n, 1 + 2 * n));
            let whole = decode_spec(bytes).unwrap();
            let cut = decode_spec(prefix).unwrap();
            assert forall|i: int| 0 <= i < n implies #[trigger] cut.payloads[i]
                == whole.payloads[i] by {
                lemma_total_take_grows(sizes, i, i + 1);
                lemma_total_take_grows(sizes, i + 1, n);
            }
            assert(cut.payloads =~= whole.payloads);
        }
    }
}

/// A buffer that ends before an encoded batch does is undecodable: every
/// proper prefix of an encoding fails to decode.
pub proof fn lemma_truncated_encoding_fails(b: Batch, k: int)
    requires
        b.wf(),
        0 <= k < encode_spec(b).len(),
    ensures
        decode_spec(encode_spec(b).take(k)) is None,
{
    lemma_decode_encode(b, Seq::empty());
    lemma_decode_prefix(encode_spec(b), k);
}

} // verus!
