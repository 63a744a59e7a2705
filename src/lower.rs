//! Lower case Base16 (hex): digits `0-9` and `a-f`.
use crate::{decode_inner, decode_result, encode_inner, encode_result, Decoder, Encoder, Error};
use vstd::prelude::*;

verus! {

/// Is `c` one of `0-9`, `a-f`?
pub open spec fn is_lower_digit(c: u8) -> bool {
    (0x30 <= c <= 0x39) || (0x61 <= c <= 0x66)
}

/// Lower case digits: `0-9` and `a-f`.
pub struct Lower;

/// The lower case digit for the nibble `n`.
pub open spec fn lower_digit(n: u8) -> u8 {
    if n < 10 {
        (n + 0x30) as u8
    } else {
        (n + 0x57) as u8
    }
}

impl Decoder for Lower {
    open spec fn accepts(c: u8) -> bool {
        is_lower_digit(c)
    }

    fn decode_nibble(src: u8) -> (r: u16) {
        let byte: i16 = src as i16;
        // 0-9  0x30-0x39: byte - 0x30 + 1 inside the range, else 0
        let a: i16 = (((0x2fi16 - byte) & (byte - 0x3a)) >> 8u32) & (byte - 47);
        // a-f  0x61-0x66: byte - 0x61 + 10 + 1 inside the range, else 0
        let b: i16 = (((0x60i16 - byte) & (byte - 0x67)) >> 8u32) & (byte - 86);
        assert(a == (if 0x30 <= src <= 0x39 { src as i16 - 47 } else { 0 })) by (bit_vector)
            requires
                byte == src as i16,
                a == ((((0x2fi16 - byte) as i16) & ((byte - 0x3a) as i16)) >> 8u32) & ((byte - 47) as i16),
        ;
        assert(b == (if 0x61 <= src <= 0x66 { src as i16 - 86 } else { 0 })) by (bit_vector)
            requires
                byte == src as i16,
                b == ((((0x60i16 - byte) as i16) & ((byte - 0x67) as i16)) >> 8u32) & ((byte - 86) as i16),
        ;
        let ret: i16 = -1 + a + b;
        assert(ret == -1 ==> #[verifier::truncate] (ret as u16) == 0xffff) by (bit_vector);
        #[verifier::truncate]
        (ret as u16)
    }
}

impl Encoder for Lower {
    open spec fn digit(n: u8) -> u8 {
        lower_digit(n)
    }

    fn encode_nibble(src: u8) -> (r: u8) {
        let mut ret: i16 = src as i16 + 0x30;
        // 0-9  0x30-0x39
        // a-f  0x61-0x66
        let shift: i16 = ((0x39i16 - ret) >> 8u32) & (0x61i16 - 0x3a);
        assert(shift == (if src >= 10 { 0x61i16 - 0x3a } else { 0 })) by (bit_vector)
            requires
                src < 16,
                ret == src as i16 + 0x30,
                shift == (((0x39i16 - ret) as i16) >> 8u32) & ((0x61i16 - 0x3a) as i16),
        ;
        ret = ret + shift;
        ret as u8
    }
}

/// Encode `src` as lower case hex into the front of `dst`, returning that part of `dst`.
pub fn encode<'a>(src: &[u8], dst: &'a mut [u8]) -> (r: Result<&'a [u8], Error>)
    ensures
        final(dst)@.len() == old(dst)@.len(),
        match r {
            Ok(out) => {
                &&& encode_result::<Lower>(src@, old(dst)@.len()) == Ok::<Seq<u8>, Error>(out@)
                &&& final(dst)@ == out@ + old(dst)@.skip(out@.len() as int)
            },
            Err(e) => {
                &&& encode_result::<Lower>(src@, old(dst)@.len()) == Err::<Seq<u8>, Error>(e)
                &&& final(dst)@ == old(dst)@
            },
        },
{
    encode_inner::<Lower>(src, dst)
}

/// Decode lower case hex `src` into the front of `dst`, returning that part of `dst`.
///
/// Upper case digits are rejected with `InvalidEncoding`.
pub fn decode<'a>(src: &[u8], dst: &'a mut [u8]) -> (r: Result<&'a [u8], Error>)
    ensures
        final(dst)@.len() == old(dst)@.len(),
        match r {
            Ok(out) => {
                &&& decode_result::<Lower>(src@, old(dst)@.len()) == Ok::<Seq<u8>, Error>(out@)
                &&& final(dst)@ == out@ + old(dst)@.skip(out@.len() as int)
            },
            Err(e) => {
                &&& decode_result::<Lower>(src@, old(dst)@.len()) == Err::<Seq<u8>, Error>(e)
                &&& e == Error::InvalidLength ==> final(dst)@ == old(dst)@
                &&& final(dst)@.skip((src@.len() / 2) as int) == old(dst)@.skip((src@.len() / 2) as int)
            },
        },
{
    decode_inner::<Lower>(src, dst)
}

} // verus!
