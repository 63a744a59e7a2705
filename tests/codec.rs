use base16ct::{decoded_len, encoded_len, lower, mixed, upper, Error};

const RAW: [u8; 4] = [0xab, 0xcd, 0x12, 0x34];

#[test]
fn lower_encode_vector() {
    let mut buf = [0u8; 16];
    let res = lower::encode(&RAW, &mut buf).unwrap();
    assert_eq!(res, b"abcd1234");
}

#[test]
fn upper_encode_vector() {
    let mut buf = [0u8; 16];
    let res = upper::encode(&RAW, &mut buf).unwrap();
    assert_eq!(res, b"ABCD1234");
}

#[test]
fn lower_decode_vector() {
    let mut buf = [0u8; 16];
    let res = lower::decode(b"abcd1234", &mut buf).unwrap();
    assert_eq!(res, &RAW);
}

#[test]
fn upper_decode_vector() {
    let mut buf = [0u8; 16];
    let res = upper::decode(b"ABCD1234", &mut buf).unwrap();
    assert_eq!(res, &RAW);
}

#[test]
fn mixed_decode_vectors() {
    let mut buf = [0u8; 16];
    assert_eq!(mixed::decode(b"abCD1234", &mut buf).unwrap(), &RAW);
    assert_eq!(mixed::decode(b"abcd1234", &mut buf).unwrap(), &RAW);
    assert_eq!(mixed::decode(b"ABCD1234", &mut buf).unwrap(), &RAW);
}

#[test]
fn lower_rejects_upper_case() {
    let mut buf = [0u8; 8];
    assert_eq!(lower::decode(b"ABCD", &mut buf), Err(Error::InvalidEncoding));
}

#[test]
fn upper_rejects_lower_case() {
    let mut buf = [0u8; 8];
    assert_eq!(upper::decode(b"abcd", &mut buf), Err(Error::InvalidEncoding));
}

#[test]
fn mixed_ignores_case() {
    let mut a = [0u8; 2];
    let mut b = [0u8; 2];
    let mut c = [0u8; 2];
    let x = mixed::decode(b"aBcD", &mut a).unwrap();
    let y = mixed::decode(b"ABCD", &mut b).unwrap();
    let z = mixed::decode(b"abcd", &mut c).unwrap();
    assert_eq!(x, &[0xab, 0xcd]);
    assert_eq!(x, y);
    assert_eq!(y, z);
}

#[test]
fn invalid_characters() {
    let mut buf = [0u8; 4];
    assert_eq!(lower::decode(b"zz", &mut buf), Err(Error::InvalidEncoding));
    assert_eq!(lower::decode(b"g1", &mut buf), Err(Error::InvalidEncoding));
    assert_eq!(upper::decode(b"G1", &mut buf), Err(Error::InvalidEncoding));
    assert_eq!(mixed::decode(b"1g", &mut buf), Err(Error::InvalidEncoding));
    assert_eq!(mixed::decode(b"0/", &mut buf), Err(Error::InvalidEncoding));
    assert_eq!(mixed::decode(b":0", &mut buf), Err(Error::InvalidEncoding));
    assert_eq!(mixed::decode(b"@0", &mut buf), Err(Error::InvalidEncoding));
    assert_eq!(mixed::decode(b"`0", &mut buf), Err(Error::InvalidEncoding));
    assert_eq!(mixed::decode(&[0x30, 0xff], &mut buf), Err(Error::InvalidEncoding));
}

#[test]
fn invalid_character_anywhere() {
    let mut buf = [0u8; 8];
    assert_eq!(lower::decode(b"x0000000", &mut buf), Err(Error::InvalidEncoding));
    assert_eq!(lower::decode(b"0000000x", &mut buf), Err(Error::InvalidEncoding));
}

#[test]
fn odd_length_input() {
    let mut buf = [0u8; 8];
    assert_eq!(lower::decode(b"abc", &mut buf), Err(Error::InvalidLength));
    assert_eq!(upper::decode(b"ABC", &mut buf), Err(Error::InvalidLength));
    assert_eq!(mixed::decode(b"z", &mut buf), Err(Error::InvalidLength));
}

#[test]
fn decoded_len_values() {
    assert_eq!(decoded_len(b""), Ok(0));
    assert_eq!(decoded_len(b"abcd"), Ok(2));
    assert_eq!(decoded_len(b"abcd1234"), Ok(4));
    assert_eq!(decoded_len(b"abc"), Err(Error::InvalidLength));
    assert_eq!(decoded_len(b"a"), Err(Error::InvalidLength));
}

#[test]
fn encoded_len_values() {
    assert_eq!(encoded_len(b""), 0);
    assert_eq!(encoded_len(&RAW), 8);
    assert_eq!(encoded_len(&[0u8; 100]), 200);
}

#[test]
fn encode_buffer_sizes() {
    let mut exact = [0u8; 8];
    assert_eq!(lower::encode(&RAW, &mut exact).unwrap(), b"abcd1234");
    let mut short = [0u8; 7];
    assert_eq!(lower::encode(&RAW, &mut short), Err(Error::InvalidLength));
    assert_eq!(short, [0u8; 7]);
    let mut large = [0xeeu8; 11];
    let res = upper::encode(&RAW, &mut large).unwrap();
    assert_eq!(res.len(), 8);
    assert_eq!(res, b"ABCD1234");
    assert_eq!(&large[8..], &[0xee, 0xee, 0xee]);
}

#[test]
fn decode_buffer_sizes() {
    let mut exact = [0u8; 4];
    assert_eq!(lower::decode(b"abcd1234", &mut exact).unwrap(), &RAW);
    let mut short = [0u8; 3];
    assert_eq!(lower::decode(b"abcd1234", &mut short), Err(Error::InvalidLength));
    assert_eq!(short, [0u8; 3]);
    let mut large = [0xeeu8; 6];
    let res = mixed::decode(b"abCD1234", &mut large).unwrap();
    assert_eq!(res.len(), 4);
    assert_eq!(res, &RAW);
    assert_eq!(&large[4..], &[0xee, 0xee]);
}

#[test]
fn failed_decode_keeps_tail() {
    let mut buf = [0xeeu8; 5];
    assert_eq!(lower::decode(b"00zz", &mut buf), Err(Error::InvalidEncoding));
    assert_eq!(&buf[2..], &[0xee, 0xee, 0xee]);
}

#[test]
fn empty_input() {
    let mut buf = [0u8; 0];
    assert_eq!(lower::encode(b"", &mut buf).unwrap(), b"");
    assert_eq!(upper::encode(b"", &mut buf).unwrap(), b"");
    assert_eq!(lower::decode(b"", &mut buf).unwrap(), b"");
    assert_eq!(upper::decode(b"", &mut buf).unwrap(), b"");
    assert_eq!(mixed::decode(b"", &mut buf).unwrap(), b"");
}

#[test]
fn every_byte_round_trips() {
    let raw: Vec<u8> = (0..=255u8).collect();
    let mut enc = [0u8; 512];
    let mut dec = [0u8; 256];

    let text = lower::encode(&raw, &mut enc).unwrap().to_vec();
    assert_eq!(lower::decode(&text, &mut dec).unwrap(), &raw[..]);
    assert_eq!(mixed::decode(&text, &mut dec).unwrap(), &raw[..]);

    let text = upper::encode(&raw, &mut enc).unwrap().to_vec();
    assert_eq!(upper::decode(&text, &mut dec).unwrap(), &raw[..]);
    assert_eq!(mixed::decode(&text, &mut dec).unwrap(), &raw[..]);
}

#[test]
fn encode_single_bytes() {
    let mut buf = [0u8; 2];
    assert_eq!(lower::encode(&[0x00], &mut buf).unwrap(), b"00");
    assert_eq!(lower::encode(&[0x9f], &mut buf).unwrap(), b"9f");
    assert_eq!(upper::encode(&[0xf9], &mut buf).unwrap(), b"F9");
    assert_eq!(upper::encode(&[0xff], &mut buf).unwrap(), b"FF");
}

#[test]
fn decode_digit_bounds() {
    let mut buf = [0u8; 1];
    assert_eq!(lower::decode(b"09", &mut buf).unwrap(), &[0x09]);
    assert_eq!(lower::decode(b"af", &mut buf).unwrap(), &[0xaf]);
    assert_eq!(upper::decode(b"AF", &mut buf).unwrap(), &[0xaf]);
    assert_eq!(mixed::decode(b"Fa", &mut buf).unwrap(), &[0xfa]);
}

#[test]
fn error_messages() {
    assert_eq!(Error::InvalidEncoding.message(), "invalid Base16 encoding");
    assert_eq!(Error::InvalidLength.message(), "invalid Base16 length");
}
