use vstd::prelude::*;

use crate::error::DecodeError;
use crate::varint::{VarInt, lemma_var_int_prefix, lemma_var_int_round_trip, parse_var_int, var_int_bytes};

verus! {

/// The big-endian bytes of `v`.
pub open spec fn i16_bytes(v: i16) -> Seq<u8> {
    seq![((v as u16) / 256) as u8, ((v as u16) % 256) as u8]
}

/// The big-endian `i16` at the front of `s`, with the two bytes it takes.
pub open spec fn parse_i16(s: Seq<u8>) -> Option<(i16, nat)> {
    if s.len() < 2 {
        None
    } else {
        Some(((s[0] as u16 * 256 + s[1] as u16) as i16, 2))
    }
}

/// Appends the big-endian bytes of `v` to `out`.
pub fn write_i16(v: i16, out: &mut Vec<u8>)
    ensures
        final(out)@ == old(out)@ + i16_bytes(v),
{
    let u: u16 = v as u16;
    out.push((u / 256) as u8);
    out.push((u % 256) as u8);
    assert(out@ =~= old(out)@ + i16_bytes(v));
}

/// Reads a big-endian `i16` from `buf` at `pos`.
pub fn read_i16(buf: &[u8], pos: usize) -> (r: Result<(i16, usize), DecodeError>)
    requires
        pos <= buf@.len(),
    ensures
        match parse_i16(buf@.skip(pos as int)) {
            Some((v, n)) => r == Ok::<(i16, usize), DecodeError>((v, n as usize)),
            None => r == Err::<(i16, usize), DecodeError>(DecodeError::TruncatedPacket),
        },
{
    if buf.len() - pos < 2 {
        return Err(DecodeError::TruncatedPacket);
    }
    let hi: u8 = buf[pos];
    let lo: u8 = buf[pos + 1];
    Ok((((hi as u16) * 256 + lo as u16) as i16, 2))
}

/// An `i16` written and read back is unchanged, and reading takes its two bytes only.
pub proof fn lemma_i16_round_trip(v: i16, rest: Seq<u8>)
    ensures
        parse_i16(i16_bytes(v) + rest) == Some((v, 2nat)),
{
    let u: u16 = v as u16;
    let s = i16_bytes(v) + rest;
    assert(s[0] == (u / 256) as u8 && s[1] == (u % 256) as u8);
    assert(((u / 256) as u8) as u16 * 256 + ((u % 256) as u8) as u16 == u);
    assert(((v as u16) as i16) == v) by (bit_vector);
}

/// Input after an `i16` does not change how it reads.
pub proof fn lemma_i16_prefix(s: Seq<u8>, rest: Seq<u8>)
    requires
        parse_i16(s) is Some,
    ensures
        parse_i16(s + rest) == parse_i16(s),
        parse_i16(s)->Some_0.1 <= s.len(),
{
    assert((s + rest)[0] == s[0] && (s + rest)[1] == s[1]);
}

/// A byte array on the wire: its length as a `VarInt`, then its bytes.
pub open spec fn byte_array_bytes(b: Seq<u8>) -> Seq<u8> {
    var_int_bytes(b.len() as i32) + b
}

/// The length-prefixed byte array at the front of `s`, at most `max` bytes long, with the
/// number of bytes it takes.
pub open spec fn parse_byte_array(s: Seq<u8>, max: usize) -> Result<(Seq<u8>, nat), DecodeError> {
    match parse_var_int(s) {
        None => Err(DecodeError::MalformedVarInt),
        Some((len, n)) => if len < 0 || len > max {
            Err(DecodeError::InvalidLength)
        } else if s.len() - n < len {
            Err(DecodeError::TruncatedPacket)
        } else {
            Ok((s.subrange(n as int, n + len), n + len as nat))
        },
    }
}

/// Appends `b` with its length prefix to `out`.
pub fn write_byte_array(b: &[u8], out: &mut Vec<u8>)
    requires
        b@.len() <= i32::MAX,
    ensures
        final(out)@ == old(out)@ + byte_array_bytes(b@),
{
    let n = b.len();
    VarInt(n as i32).write(out);
    let ghost mid = out@;
    let mut i: usize = 0;
    while i < n
        invariant
            n == b@.len(),
            i <= n,
            out@ == mid + b@.take(i as int),
        decreases n - i,
    {
        out.push(b[i]);
        i += 1;
        assert(out@ =~= mid + b@.take(i as int));
    }
    assert(b@.take(n as int) =~= b@);
    assert(out@ =~= old(out)@ + byte_array_bytes(b@));
}

/// Reads a length-prefixed byte array of at most `max` bytes from `buf` at `pos`.
pub fn read_byte_array(buf: &[u8], pos: usize, max: usize) -> (r: Result<(Vec<u8>, usize), DecodeError>)
    requires
        pos <= buf@.len(),
    ensures
        match parse_byte_array(buf@.skip(pos as int), max) {
            Ok((b, n)) => r is Ok && r->Ok_0.0@ == b && r->Ok_0.1 == n,
            Err(e) => r == Err::<(Vec<u8>, usize), DecodeError>(e),
        },
{
    let total = buf.len();
    let (len, n) = match VarInt::read(buf, pos) {
        Ok(x) => x,
        Err(e) => {
            return Err(e);
        },
    };
    proof {
        lemma_var_int_prefix(buf@.skip(pos as int), Seq::empty());
    }
    assert(n == parse_var_int(buf@.skip(pos as int))->Some_0.1);
    if len.0 < 0 || len.0 as usize > max {
        return Err(DecodeError::InvalidLength);
    }
    let count = len.0 as usize;
    let start = pos + n;
    if total - start < count {
        return Err(DecodeError::TruncatedPacket);
    }
    let mut out: Vec<u8> = Vec::new();
    let mut i: usize = 0;
    while i < count
        invariant
            total == buf@.len(),
            start + count <= total,
            i <= count,
            out@ == buf@.subrange(start as int, start + i),
        decreases count - i,
    {
        out.push(buf[start + i]);
        i += 1;
        assert(out@ =~= buf@.subrange(start as int, start + i));
    }
    assert(buf@.subrange(start as int, start + count) =~= buf@.skip(pos as int).subrange(
        n as int,
        n + count,
    ));
    Ok((out, n + count))
}

/// A byte array within the maximum survives writing and reading back, and reading takes
/// exactly the bytes written, whatever follows.
pub proof fn lemma_byte_array_round_trip(b: Seq<u8>, max: usize, rest: Seq<u8>)
    requires
        b.len() <= max,
        b.len() <= i32::MAX,
    ensures
        parse_byte_array(byte_array_bytes(b) + rest, max) == Ok::<(Seq<u8>, nat), DecodeError>(
            (b, byte_array_bytes(b).len()),
        ),
{
    let p = var_int_bytes(b.len() as i32);
    let full = byte_array_bytes(b) + rest;
    lemma_var_int_round_trip(b.len() as i32, b + rest);
    assert(full =~= p + (b + rest));
    assert(full.subrange(p.len() as int, (p.len() + b.len()) as int) =~= b);
}

} // verus!
