use pumpkin_protocol::error::DecodeError;
use pumpkin_protocol::fields::{read_byte_array, read_i16, write_byte_array, write_i16};
use pumpkin_protocol::varint::{VarInt, VarLong};

#[test]
fn var_int_zero_is_one_byte() {
    assert_eq!(VarInt(0).encode(), vec![0x00]);
}

#[test]
fn var_int_127_is_one_byte() {
    assert_eq!(VarInt(127).encode(), vec![0x7f]);
}

#[test]
fn var_int_128_is_two_bytes() {
    assert_eq!(VarInt(128).encode(), vec![0x80, 0x01]);
}

#[test]
fn var_int_minus_one_is_five_bytes() {
    assert_eq!(VarInt(-1).encode(), vec![0xff, 0xff, 0xff, 0xff, 0x0f]);
}

#[test]
fn var_int_known_values() {
    assert_eq!(VarInt(300).encode(), vec![0xac, 0x02]);
    assert_eq!(VarInt(i32::MAX).encode(), vec![0xff, 0xff, 0xff, 0xff, 0x07]);
    assert_eq!(VarInt(i32::MIN).encode(), vec![0x80, 0x80, 0x80, 0x80, 0x08]);
}

#[test]
fn var_int_round_trip_samples() {
    for v in [0, 1, 127, 128, 255, 2097151, 2097152, -1, -128, i32::MAX, i32::MIN] {
        let bytes = VarInt(v).encode();
        assert_eq!(VarInt::decode(&bytes), Ok((VarInt(v), bytes.len())));
    }
}

#[test]
fn var_int_decode_ignores_following_bytes() {
    assert_eq!(VarInt::decode(&[0xac, 0x02, 0x05, 0x80]), Ok((VarInt(300), 2)));
}

#[test]
fn var_int_read_at_position() {
    assert_eq!(VarInt::read(&[0x09, 0x80, 0x01], 1), Ok((VarInt(128), 2)));
}

#[test]
fn var_int_six_continued_bytes_fail() {
    let bytes = [0x80, 0x80, 0x80, 0x80, 0x80, 0x80];
    assert_eq!(VarInt::decode(&bytes), Err(DecodeError::MalformedVarInt));
}

#[test]
fn var_int_truncated_fails() {
    assert_eq!(VarInt::decode(&[0x80, 0x80]), Err(DecodeError::MalformedVarInt));
    assert_eq!(VarInt::decode(&[]), Err(DecodeError::MalformedVarInt));
}

#[test]
fn var_long_minus_one_is_ten_bytes() {
    let bytes = VarLong(-1).encode();
    assert_eq!(bytes, vec![0xff, 0xff, 0xff, 0xff, 0xff, 0xff, 0xff, 0xff, 0xff, 0x01]);
    assert_eq!(VarLong::decode(&bytes), Ok((VarLong(-1), 10)));
}

#[test]
fn var_long_round_trip_samples() {
    for v in [0i64, 1, 300, 1 << 40, i64::MAX, i64::MIN] {
        let bytes = VarLong(v).encode();
        assert_eq!(VarLong::decode(&bytes), Ok((VarLong(v), bytes.len())));
    }
}

#[test]
fn var_long_eleven_continued_bytes_fail() {
    let bytes = [0x80u8; 11];
    assert_eq!(VarLong::decode(&bytes), Err(DecodeError::MalformedVarInt));
}

#[test]
fn i16_is_big_endian() {
    let mut out = Vec::new();
    write_i16(-2, &mut out);
    write_i16(0x0102, &mut out);
    assert_eq!(out, vec![0xff, 0xfe, 0x01, 0x02]);
    assert_eq!(read_i16(&out, 0), Ok((-2, 2)));
    assert_eq!(read_i16(&out, 2), Ok((0x0102, 2)));
    assert_eq!(read_i16(&out, 3), Err(DecodeError::TruncatedPacket));
}

#[test]
fn byte_array_round_trip() {
    let mut out = Vec::new();
    write_byte_array(&[7, 8, 9], &mut out);
    assert_eq!(out, vec![3, 7, 8, 9]);
    assert_eq!(read_byte_array(&out, 0, 16), Ok((vec![7, 8, 9], 4)));
}

#[test]
fn byte_array_over_maximum_fails() {
    assert_eq!(read_byte_array(&[3, 7, 8, 9], 0, 2), Err(DecodeError::InvalidLength));
    assert_eq!(read_byte_array(&[0x7f], 0, 16), Err(DecodeError::InvalidLength));
}

#[test]
fn byte_array_short_input_fails() {
    assert_eq!(read_byte_array(&[3, 7, 8], 0, 16), Err(DecodeError::TruncatedPacket));
}
