//! What holds of encoding and decoding across calls and for all inputs.
use crate::lower::Lower;
use crate::mixed::Mixed;
use crate::upper::Upper;
use crate::{
    all_digits, decode_result, decoded, digit_value, encode_result, encoded, Decoder, Encoder, Error,
};
use vstd::prelude::*;

verus! {

/// Decoding with `D` undoes encoding with `E` where every digit of `E` is one
/// that `D` accepts and stands for its own nibble.
proof fn lemma_round_trip<E: Encoder, D: Decoder>(b: Seq<u8>, room: nat)
    requires
        forall|n: u8| n < 16 ==> D::accepts(#[trigger] E::digit(n)) && digit_value(E::digit(n)) == n,
        b.len() <= room,
    ensures
        decode_result::<D>(encoded::<E>(b), room) == Ok::<Seq<u8>, Error>(b),
{
    let s = encoded::<E>(b);
    assert forall|i: int| 0 <= i < s.len() implies #[trigger] D::accepts(s[i]) by {
        let x = b[i / 2];
        assert(E::digit((x / 16) as u8) == E::digit((x / 16) as u8));
        assert(E::digit((x % 16) as u8) == E::digit((x % 16) as u8));
    }
    assert forall|i: int| 0 <= i < b.len() implies #[trigger] decoded(s)[i] == b[i] by {
        let x = b[i];
        assert(E::digit((x / 16) as u8) == E::digit((x / 16) as u8));
        assert(E::digit((x % 16) as u8) == E::digit((x % 16) as u8));
        assert((2 * i) / 2 == i && (2 * i + 1) / 2 == i);
        assert((2 * i) % 2 == 0 && (2 * i + 1) % 2 == 1);
    }
    assert(decoded(s) =~= b);
}

/// Lower case digits decode to their own nibble with the lower case and the
/// mixed decoder.
proof fn lemma_lower_digits()
    ensures
        forall|n: u8| n < 16 ==> Lower::accepts(#[trigger] Lower::digit(n)) && digit_value(Lower::digit(n)) == n,
        forall|n: u8| n < 16 ==> Mixed::accepts(#[trigger] Lower::digit(n)) && digit_value(Lower::digit(n)) == n,
{
}

/// Upper case digits decode to their own nibble with the upper case and the
/// mixed decoder.
proof fn lemma_upper_digits()
    ensures
        forall|n: u8| n < 16 ==> Upper::accepts(#[trigger] Upper::digit(n)) && digit_value(Upper::digit(n)) == n,
        forall|n: u8| n < 16 ==> Mixed::accepts(#[trigger] Upper::digit(n)) && digit_value(Upper::digit(n)) == n,
{
}

/// Any bytes encoded as lower case hex decode back to themselves, with the
/// lower case decoder and with the mixed one, into any buffer large enough.
pub proof fn lemma_lower_round_trip(b: Seq<u8>, room: nat)
    requires
        b.len() <= room,
    ensures
        encode_result::<Lower>(b, 2 * room) == Ok::<Seq<u8>, Error>(encoded::<Lower>(b)),
        decode_result::<Lower>(encoded::<Lower>(b), room) == Ok::<Seq<u8>, Error>(b),
        decode_result::<Mixed>(encoded::<Lower>(b), room) == Ok::<Seq<u8>, Error>(b),
{
    lemma_lower_digits();
    lemma_round_trip::<Lower, Lower>(b, room);
    lemma_round_trip::<Lower, Mixed>(b, room);
}

/// Any bytes encoded as upper case hex decode back to themselves, with the
/// upper case decoder and with the mixed one, into any buffer large enough.
pub proof fn lemma_upper_round_trip(b: Seq<u8>, room: nat)
    requires
        b.len() <= room,
    ensures
        encode_result::<Upper>(b, 2 * room) == Ok::<Seq<u8>, Error>(encoded::<Upper>(b)),
        decode_result::<Upper>(encoded::<Upper>(b), room) == Ok::<Seq<u8>, Error>(b),
        decode_result::<Mixed>(encoded::<Upper>(b), room) == Ok::<Seq<u8>, Error>(b),
{
    lemma_upper_digits();
    lemma_round_trip::<Upper, Upper>(b, room);
    lemma_round_trip::<Upper, Mixed>(b, room);
}

/// Encoding succeeds exactly when the buffer has room for two digits per
/// byte; the output is then exactly that long, however much room is left
/// over, and a buffer one byte short fails with `InvalidLength`.
pub proof fn lemma_encode_buffer_size<E: Encoder>(b: Seq<u8>, room: nat)
    ensures
        2 * b.len() <= room ==> encode_result::<E>(b, room) == Ok::<Seq<u8>, Error>(encoded::<E>(b)),
        encoded::<E>(b).len() == 2 * b.len(),
        2 * b.len() > room ==> encode_result::<E>(b, room) == Err::<Seq<u8>, Error>(Error::InvalidLength),
{
}

/// Decoding valid digits succeeds exactly when the buffer has room for one
/// byte per pair; the output is then exactly that long, however much room is
/// left over, and a buffer one byte short fails with `InvalidLength`.
pub proof fn lemma_decode_buffer_size<D: Decoder>(s: Seq<u8>, room: nat)
    requires
        s.len() % 2 == 0,
        all_digits::<D>(s),
    ensures
        s.len() / 2 <= room ==> decode_result::<D>(s, room) == Ok::<Seq<u8>, Error>(decoded(s)),
        decoded(s).len() == s.len() / 2,
        s.len() / 2 > room ==> decode_result::<D>(s, room) == Err::<Seq<u8>, Error>(Error::InvalidLength),
{
}

/// Input of even length, with room for its output, that holds a byte which is
/// not a digit of `D` fails with `InvalidEncoding`, wherever that byte stands.
pub proof fn lemma_invalid_digit<D: Decoder>(s: Seq<u8>, room: nat, i: int)
    requires
        s.len() % 2 == 0,
        s.len() / 2 <= room,
        0 <= i < s.len(),
        !D::accepts(s[i]),
    ensures
        decode_result::<D>(s, room) == Err::<Seq<u8>, Error>(Error::InvalidEncoding),
{
}

} // verus!
