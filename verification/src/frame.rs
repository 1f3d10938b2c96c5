use vstd::bytes::lemma_auto_spec_u64_to_from_le_bytes;
use vstd::bytes::spec_u64_from_le_bytes;
use vstd::bytes::spec_u64_to_le_bytes;
use vstd::bytes::u64_from_le_bytes;
use vstd::bytes::u64_to_le_bytes;
use vstd::prelude::*;
use vstd::slice::slice_subrange;
use vstd::slice::slice_to_vec;

verus! {

/// The bytes that the number of a message takes at the head of its frame.
pub const HEAD: usize = 8;

/// The frame of a message: its number in eight bytes, least significant
/// byte first, then the encoded payload as it is.
pub open spec fn framed(number: u64, payload: Seq<u8>) -> Seq<u8> {
    spec_u64_to_le_bytes(number) + payload
}

/// The number and the payload that `bytes` frames; nothing where `bytes` is
/// too short to hold a number.
pub open spec fn unframed(bytes: Seq<u8>) -> Option<(u64, Seq<u8>)> {
    if bytes.len() < HEAD {
        None
    } else {
        Some((spec_u64_from_le_bytes(bytes.take(HEAD as int)), bytes.skip(HEAD as int)))
    }
}

/// Frames `payload` under `number`.
pub fn frame(number: u64, payload: &[u8]) -> (r: Vec<u8>)
    ensures
        r@ == framed(number, payload@),
{
    let mut out = u64_to_le_bytes(number);
    out.extend_from_slice(payload);
    out
}

/// Takes a frame apart into its number and its payload; `None` exactly
/// where `bytes` is shorter than a number.
pub fn split_frame(bytes: &[u8]) -> (r: Option<(u64, Vec<u8>)>)
    ensures
        match r {
            Some((number, payload)) => unframed(bytes@) == Some((number, payload@)),
            None => unframed(bytes@) is None,
        },
{
    if bytes.len() < HEAD {
        None
    } else {
        let number = u64_from_le_bytes(slice_subrange(bytes, 0, HEAD));
        let payload = slice_to_vec(slice_subrange(bytes, HEAD, bytes.len()));
        Some((number, payload))
    }
}

/// Taking a frame apart gives back the number and the payload that it was
/// made of.
pub proof fn lemma_unframed_framed(number: u64, payload: Seq<u8>)
    ensures
        unframed(framed(number, payload)) == Some((number, payload)),
{
    lemma_auto_spec_u64_to_from_le_bytes();
    let bytes = framed(number, payload);
    assert(bytes.take(HEAD as int) =~= spec_u64_to_le_bytes(number));
    assert(bytes.skip(HEAD as int) =~= payload);
}

/// Whatever comes apart into a number and a payload is the frame of the two.
pub proof fn lemma_framed_unframed(bytes: Seq<u8>)
    requires
        unframed(bytes) is Some,
    ensures
        framed(unframed(bytes).unwrap().0, unframed(bytes).unwrap().1) == bytes,
{
    lemma_auto_spec_u64_to_from_le_bytes();
    assert(bytes.take(HEAD as int) + bytes.skip(HEAD as int) =~= bytes);
}

/// What a reader with the decoder `decode` makes of `bytes`: the number of
/// the frame and the value that its payload encodes, or nothing where
/// `bytes` is no frame or `decode` cannot read the payload.
pub open spec fn read_frame<T>(bytes: Seq<u8>, decode: spec_fn(Seq<u8>) -> Option<T>) -> Option<
    (u64, T),
> {
    match unframed(bytes) {
        Some((number, payload)) => match decode(payload) {
            Some(value) => Some((number, value)),
            None => None,
        },
        None => None,
    }
}

/// A value goes over the wire unchanged, with its number, wherever the codec
/// gives back what it was given: where `decode` reads `value` from what
/// `encode` made of it, a reader reads `number` and `value` from the frame
/// of that encoding.
pub proof fn lemma_frame_read_as_written<T>(
    number: u64,
    value: T,
    encode: spec_fn(T) -> Seq<u8>,
    decode: spec_fn(Seq<u8>) -> Option<T>,
)
    requires
        decode(encode(value)) == Some(value),
    ensures
        read_frame(framed(number, encode(value)), decode) == Some((number, value)),
{
    lemma_unframed_framed(number, encode(value));
}

} // verus!
