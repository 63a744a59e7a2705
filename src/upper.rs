//! Upper case Base16 (hex): digits `0-9` and `A-F`.
use crate::{decode_inner, decode_result, encode_inner, encode_result, Decoder, Encoder, Error};
use vstd::prelude::*;

verus! {

/// Is `c` one of `0-9`, `A-F`?
pub open spec fn is_upper_digit(c: u8) -> bool {
    (0x30 <= c <= 0x39) || (0x41 <= c <= 0x46)
}

/// Upper case digits: `0-9` and `A-F`.
pub struct Upper;

/// The upper case digit for the nibble `n`.
pub open spec fn upper_digit(n: u8) -> u8 {
    if n < 10 {
        (n + 0x30) as u8
    } else {
        (n + 0x37) as u8
    }
}

impl Decoder for Upper {
    open spec fn accepts(c: u8) -> bool {
        is_upper_digit(c)
    }

    fn decode_nibble(src: u8) -> (r: u16) {
        let byte: i16 = src as i16;
        // 0-9  0x30-0x39: byte - 0x30 + 1 inside the range, else 0
        let a: i16 = (((0x2fi16 - byte) & (byte - 0x3a)) >> 8u32) & (byte - 47);
        // A-F  0x41-0x46: byte - 0x41 + 10 + 1 inside the range, else 0
        let b: i16 = (((0x40i16 - byte) & (byte - 0x47)) >> 8u32) & (byte - 54);
        assert(a == (if 0x30 <= src <= 0x39 { src as i16 - 47 } else { 0 })) by (bit_vector)
            requires
                byte == src as i16,
                a == ((((0x2fi16 - byte) as i16) & ((byte - 0x3a) as i16)) >> 8u32) & ((byte - 47) as i16),
        ;
        assert(b == (if 0x41 <= src <= 0x46 { src as i16 - 54 } else { 0 })) by (bit_vector)
            requires
                byte == src as i16,
                b == ((((0x40i16 - byte) as i16) & ((byte - 0x47) as i16)) >> 8u32) & ((byte - 54) as i16),
        ;
        let ret: i16 = -1 + a + b;
        assert(ret == -1 ==> #[verifier::truncate] (ret as u16) == 0xffff) by (bit_vector);
        #[verifier::truncate]
        (ret as u16)
    }
}

impl Encoder for Upper {
    open spec fn digit(n: u8) -> u8 {
        upper_digit(n)
    }

    fn encode_nibble(src: u8) -> (r: u8) {
        let mut ret: i16 = src as i16 + 0x30;
        // 0-9  0x30-0x39
        // A-F  0x41-0x46
        let shift: i16 = ((0x39i16 - ret) >> 8u32) & (0x41i16 - 0x3a);
        assert(shift == (if src >= 10 { 0x41i16 - 0x3a } else { 0 })) by (bit_vector)
            requires
                src < 16,
                ret == src as i16 + 0x30,
                shift == (((0x39i16 - ret) as i16) >> 8u32) & ((0x41i16 - 0x3a) as i16),
        ;
        ret = ret + shift;
        ret as u8
    }
}

/// Encode `src` as upper case hex into the front of `dst`, returning that part of `dst`.
pub fn encode<'a>(src: &[u8], dst: &'a mut [u8]) -> (r: Result<&'a [u8], Error>)
    ensures
        final(dst)@.len() == old(dst)@.len(),
        match r {
            Ok(out) => {
                &&& encode_result::<Upper>(src@, old(dst)@.len()) == Ok::<Seq<u8>, Error>(out@)
                &&& final(dst)@ == out@ + old(dst)@.skip(out@.len() as int)
            },
            Err(e) => {
                &&& encode_result::<Upper>(src@, old(dst)@.len()) == Err::<Seq<u8>, Error>(e)
                &&& final(dst)@ == old(dst)@
            },
        },
{
    encode_inner::<Upper>(src, dst)
}

/// Decode upper case hex `src` into the front of `dst`, returning that part of `dst`.
///
/// Lower case digits are rejected with `InvalidEncoding`.
pub fn decode<'a>(src: &[u8], dst: &'a mut [u8]) -> (r: Result<&'a [u8], Error>)
    ensures
        final(dst)@.len() == old(dst)@.len(),
        match r {
            Ok(out) => {
                &&& decode_result::<Upper>(src@, old(dst)@.len()) == Ok::<Seq<u8>, Error>(out@)
                &&& final(dst)@ == out@ + old(dst)@.skip(out@.len() as int)
            },
            Err(e) => {
                &&& decode_result::<Upper>(src@, old(dst)@.len()) == Err::<Seq<u8>, Error>(e)
                &&& e == Error::InvalidLength ==> final(dst)@ == old(dst)@
                &&& final(dst)@.skip((src@.len() / 2) as int) == old(dst)@.skip((src@.len() / 2) as int)
            },
        },
{
    decode_inner::<Upper>(src, dst)
}

} // verus!
