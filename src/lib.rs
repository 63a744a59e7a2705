//! Base16 (hex) encoding and decoding without data-dependent branches or
//! lookup tables.
//!
//! Encoding and decoding write into a buffer that the caller supplies and
//! return the part of it that holds the output. Only the length of the input
//! decides the control flow; the values of its bytes never do.
use vstd::prelude::*;

pub mod laws;
pub mod lower;
pub mod mixed;
pub mod upper;

verus! {

/// Error type
#[derive(Clone, Copy, Debug, PartialEq, Eq, Structural)]
pub enum Error {
    /// Invalid encoding of provided Base16 string.
    InvalidEncoding,
    /// Insufficient output buffer length.
    InvalidLength,
}

impl Error {
    /// A short description of the error.
    pub fn message(&self) -> (r: &'static str)
        ensures
            *self == Error::InvalidEncoding ==> r@ == "invalid Base16 encoding"@,
            *self == Error::InvalidLength ==> r@ == "invalid Base16 length"@,
    {
        match self {
            Error::InvalidEncoding => "invalid Base16 encoding",
            Error::InvalidLength => "invalid Base16 length",
        }
    }
}

/// The value of a hex digit: `0-9`, `A-F` and `a-f` stand for 0 to 15.
pub open spec fn digit_value(c: u8) -> u8 {
    if c <= 0x39 {
        (c - 0x30) as u8
    } else if c <= 0x46 {
        (c - 0x37) as u8
    } else {
        (c - 0x57) as u8
    }
}

/// Compute decoded length of the given hex-encoded input.
pub fn decoded_len(bytes: &[u8]) -> (r: Result<usize, Error>)
    ensures
        match r {
            Ok(n) => bytes@.len() % 2 == 0 && n == bytes@.len() / 2,
            Err(e) => bytes@.len() % 2 == 1 && e == Error::InvalidLength,
        },
{
    let n: usize = bytes.len();
    if n & 1 == 0 {
        assert(n & 1 == 0 ==> n % 2 == 0) by (bit_vector);
        Ok(n / 2)
    } else {
        assert(n & 1 != 0 ==> n % 2 == 1) by (bit_vector);
        Err(Error::InvalidLength)
    }
}

/// Get the length of Base16 (hex) produced by encoding the given bytes.
pub fn encoded_len(bytes: &[u8]) -> (r: usize)
    requires
        bytes@.len() * 2 <= usize::MAX,
    ensures
        r == bytes@.len() * 2,
{
    bytes.len() * 2
}

/// A set of hex digits and how a single one of them is decoded.
pub trait Decoder {
    /// Is `c` a digit of this set?
    spec fn accepts(c: u8) -> bool;

    /// Decode one digit to its value, or any other byte to `0xffff`, with no
    /// branch on the value of `c`.
    fn decode_nibble(c: u8) -> (r: u16)
        ensures
            r == (if Self::accepts(c) { digit_value(c) as u16 } else { 0xffffu16 }),
            Self::accepts(c) ==> r < 16,
    ;
}

/// Every byte of `s` is a digit that `D` accepts.
pub open spec fn all_digits<D: Decoder>(s: Seq<u8>) -> bool {
    forall|i: int| 0 <= i < s.len() ==> #[trigger] D::accepts(s[i])
}

/// The byte that the digits `hi`, `lo` stand for, high nibble first.
pub open spec fn byte_of(hi: u8, lo: u8) -> u8 {
    (digit_value(hi) * 16 + digit_value(lo)) as u8
}

/// The bytes that the digit pairs of `s` stand for.
pub open spec fn decoded(s: Seq<u8>) -> Seq<u8> {
    Seq::new(s.len() / 2, |i: int| byte_of(s[2 * i], s[2 * i + 1]))
}

/// What decoding `s` with `D` into a buffer of `room` bytes gives.
pub open spec fn decode_result<D: Decoder>(s: Seq<u8>, room: nat) -> Result<Seq<u8>, Error> {
    if s.len() % 2 == 1 || s.len() / 2 > room {
        Err(Error::InvalidLength)
    } else if !all_digits::<D>(s) {
        Err(Error::InvalidEncoding)
    } else {
        Ok(decoded(s))
    }
}

/// How one pair of decoded nibbles combines into a byte and an error mark.
proof fn lemma_combine(hi: u16, lo: u16)
    by (bit_vector)
    requires
        hi < 16 || hi == 0xffff,
        lo < 16 || lo == 0xffff,
    ensures
        ((hi << 4u16) | lo) >> 8u16 == 0 <==> (hi < 16 && lo < 16),
        ((hi << 4u16) | lo) >> 8u16 <= 0xff,
        hi < 16 && lo < 16 ==> ((hi << 4u16) | lo) as u8 == hi * 16 + lo,
{
}

/// Decode `src` into the front of `dst` with the digits of `D`.
///
/// Every pair is decoded whatever the digits hold; whether one of them was
/// invalid is looked at once, at the end. After `InvalidEncoding` the front
/// of `dst` holds no meaningful bytes.
pub fn decode_inner<'a, D: Decoder>(src: &[u8], dst: &'a mut [u8]) -> (r: Result<&'a [u8], Error>)
    ensures
        final(dst)@.len() == old(dst)@.len(),
        match r {
            Ok(out) => {
                &&& decode_result::<D>(src@, old(dst)@.len()) == Ok::<Seq<u8>, Error>(out@)
                &&& final(dst)@ == out@ + old(dst)@.skip(out@.len() as int)
            },
            Err(e) => {
                &&& decode_result::<D>(src@, old(dst)@.len()) == Err::<Seq<u8>, Error>(e)
                &&& e == Error::InvalidLength ==> final(dst)@ == old(dst)@
                &&& final(dst)@.skip((src@.len() / 2) as int) == old(dst)@.skip((src@.len() / 2) as int)
            },
        },
{
    let n: usize = match decoded_len(src) {
        Ok(n) => n,
        Err(e) => {
            return Err(e);
        },
    };
    if n > dst.len() {
        return Err(Error::InvalidLength);
    }
    let mut err: u16 = 0;
    let mut i: usize = 0;
    while i < n
        invariant
            n == src@.len() / 2,
            2 * n == src.len(),
            src@.len() % 2 == 0,
            i <= n <= dst@.len(),
            dst@.len() == old(dst)@.len(),
            err <= 0xff,
            err == 0 <==> forall|j: int| 0 <= j < 2 * i ==> #[trigger] D::accepts(src@[j]),
            err == 0 ==> forall|j: int| 0 <= j < i ==> #[trigger] dst@[j] == byte_of(src@[2 * j], src@[2 * j + 1]),
            forall|j: int| n <= j < dst@.len() ==> #[trigger] dst@[j] == old(dst)@[j],
        decreases n - i,
    {
        let hi: u16 = D::decode_nibble(src[2 * i]);
        let lo: u16 = D::decode_nibble(src[2 * i + 1]);
        let byte: u16 = (hi << 4u16) | lo;
        proof {
            lemma_combine(hi, lo);
        }
        let mark: u16 = byte >> 8u16;
        assert((err == 0 && mark == 0) <==> (err | mark) == 0) by (bit_vector);
        assert(err <= 0xff && mark <= 0xff ==> (err | mark) <= 0xff) by (bit_vector);
        err = err | mark;
        dst[i] = #[verifier::truncate] (byte as u8);
        i = i + 1;
    }
    if err == 0 {
        assert(decoded(src@) =~= dst@.take(n as int));
        assert(dst@ =~= dst@.take(n as int) + old(dst)@.skip(n as int));
        let out: &'a [u8] = dst;
        Ok(vstd::slice::slice_subrange(out, 0, n))
    } else {
        Err(Error::InvalidEncoding)
    }
}

/// The digits that bytes are encoded with.
pub trait Encoder {
    /// The digit that stands for the nibble `n`.
    spec fn digit(n: u8) -> u8;

    /// Encode one nibble as its digit, with no branch on the value of `n`.
    fn encode_nibble(n: u8) -> (r: u8)
        requires
            n < 16,
        ensures
            r == Self::digit(n),
    ;
}

/// The digits that stand for the bytes of `b`, two for each, high nibble first.
pub open spec fn encoded<E: Encoder>(b: Seq<u8>) -> Seq<u8> {
    Seq::new(
        2 * b.len(),
        |j: int|
            if j % 2 == 0 {
                E::digit((b[j / 2] / 16) as u8)
            } else {
                E::digit((b[j / 2] % 16) as u8)
            },
    )
}

/// What encoding `b` with `E` into a buffer of `room` bytes gives.
pub open spec fn encode_result<E: Encoder>(b: Seq<u8>, room: nat) -> Result<Seq<u8>, Error> {
    if 2 * b.len() > room {
        Err(Error::InvalidLength)
    } else {
        Ok(encoded::<E>(b))
    }
}

/// Encode `src` into the front of `dst` with the digits of `E`.
pub fn encode_inner<'a, E: Encoder>(src: &[u8], dst: &'a mut [u8]) -> (r: Result<&'a [u8], Error>)
    ensures
        final(dst)@.len() == old(dst)@.len(),
        match r {
            Ok(out) => {
                &&& encode_result::<E>(src@, old(dst)@.len()) == Ok::<Seq<u8>, Error>(out@)
                &&& final(dst)@ == out@ + old(dst)@.skip(out@.len() as int)
            },
            Err(e) => {
                &&& encode_result::<E>(src@, old(dst)@.len()) == Err::<Seq<u8>, Error>(e)
                &&& final(dst)@ == old(dst)@
            },
        },
{
    if src.len() > dst.len() / 2 {
        return Err(Error::InvalidLength);
    }
    let n: usize = src.len();
    let mut i: usize = 0;
    while i < n
        invariant
            n == src@.len(),
            2 * n <= dst.len(),
            i <= n,
            dst@.len() == old(dst)@.len(),
            forall|j: int| 0 <= j < 2 * i ==> #[trigger] dst@[j] == encoded::<E>(src@)[j],
            forall|j: int| 2 * n <= j < dst@.len() ==> #[trigger] dst@[j] == old(dst)@[j],
        decreases n - i,
    {
        let b: u8 = src[i];
        assert(b >> 4u8 == b / 16 && b & 0x0fu8 == b % 16) by (bit_vector);
        dst[2 * i] = E::encode_nibble(b >> 4u8);
        dst[2 * i + 1] = E::encode_nibble(b & 0x0fu8);
        i = i + 1;
    }
    let len: usize = 2 * n;
    assert(encoded::<E>(src@) =~= dst@.take(len as int));
    assert(dst@ =~= dst@.take(len as int) + old(dst)@.skip(len as int));
    let out: &'a [u8] = dst;
    Ok(vstd::slice::slice_subrange(out, 0, len))
}

} // verus!
