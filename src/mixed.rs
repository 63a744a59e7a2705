//! Base16 (hex) in either case: decoding accepts `0-9`, `a-f` and `A-F`.
use crate::{decode_inner, decode_result, Decoder, Error};
use vstd::prelude::*;

verus! {

/// Is `c` one of `0-9`, `a-f`, `A-F`?
pub open spec fn is_hex_digit(c: u8) -> bool {
    (0x30 <= c <= 0x39) || (0x41 <= c <= 0x46) || (0x61 <= c <= 0x66)
}

/// Digits of either case: `0-9`, `a-f` and `A-F`.
pub struct Mixed;

impl Decoder for Mixed {
    open spec fn accepts(c: u8) -> bool {
        is_hex_digit(c)
    }

    fn decode_nibble(src: u8) -> (r: u16) {
        let byte: i16 = src as i16;
        // 0-9  0x30-0x39: byte - 0x30 + 1 inside the range, else 0
        let a: i16 = (((0x2fi16 - byte) & (byte - 0x3a)) >> 8u32) & (byte - 47);
        // A-F  0x41-0x46: byte - 0x41 + 10 + 1 inside the range, else 0
        let b: i16 = (((0x40i16 - byte) & (byte - 0x47)) >> 8u32) & (byte - 54);
        // a-f  0x61-0x66: byte - 0x61 + 10 + 1 inside the range, else 0
        let c: i16 = (((0x60i16 - byte) & (byte - 0x67)) >> 8u32) & (byte - 86);
        assert(a == (if 0x30 <= src <= 0x39 { src as i16 - 47 } else { 0 })) by (bit_vector)
            requires
                byte == src as i16,
                a == ((((0x2fi16 - byte) as i16) & ((byte - 0x3a) as i16)) >> 8u32) & ((byte - 47) as i16),
        ;
        assert(b == (if 0x41 <= src <= 0x46 { src as i16 - 54 } else { 0 })) by (bit_vector)
            requires
                byte == src as i16,
                b == ((((0x40i16 - byte) as i16) & ((byte - 0x47) as i16)) >> 8u32) & ((byte - 54) as i16),
        ;
        assert(c == (if 0x61 <= src <= 0x66 { src as i16 - 86 } else { 0 })) by (bit_vector)
            requires
                byte == src as i16,
                c == ((((0x60i16 - byte) as i16) & ((byte - 0x67) as i16)) >> 8u32) & ((byte - 86) as i16),
        ;
        let ret: i16 = -1 + a + b + c;
        assert(ret == -1 ==> #[verifier::truncate] (ret as u16) == 0xffff) by (bit_vector);
        #[verifier::truncate]
        (ret as u16)
    }
}

/// Decode hex `src` of either case into the front of `dst`, returning that part of `dst`.
pub fn decode<'a>(src: &[u8], dst: &'a mut [u8]) -> (r: Result<&'a [u8], Error>)
    ensures
        final(dst)@.len() == old(dst)@.len(),
        match r {
            Ok(out) => {
                &&& decode_result::<Mixed>(src@, old(dst)@.len()) == Ok::<Seq<u8>, Error>(out@)
                &&& final(dst)@ == out@ + old(dst)@.skip(out@.len() as int)
            },
            Err(e) => {
                &&& decode_result::<Mixed>(src@, old(dst)@.len()) == Err::<Seq<u8>, Error>(e)
                &&& e == Error::InvalidLength ==> final(dst)@ == old(dst)@
                &&& final(dst)@.skip((src@.len() / 2) as int) == old(dst)@.skip((src@.len() / 2) as int)
            },
        },
{
    decode_inner::<Mixed>(src, dst)
}

} // verus!
