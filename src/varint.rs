use vstd::prelude::*;

use crate::error::DecodeError;

verus! {

/// The canonical little-endian base-128 encoding of `u`: seven bits per byte, the high
/// bit set on every byte but the last.
pub open spec fn var_bytes(u: nat) -> Seq<u8>
    decreases u,
{
    if u < 128 {
        seq![u as u8]
    } else {
        seq![(u % 128 + 128) as u8] + var_bytes(u / 128)
    }
}

fn write_var(u: u64, out: &mut Vec<u8>)
    ensures
        final(out)@ == old(out)@ + var_bytes(u as nat),
{
    let mut x: u64 = u;
    while x >= 128
        invariant
            old(out)@ + var_bytes(u as nat) == out@ + var_bytes(x as nat),
        decreases x,
    {
        let b: u8 = (x % 128 + 128) as u8;
        assert(out@ + var_bytes(x as nat) =~= out@.push(b) + var_bytes((x / 128) as nat));
        out.push(b);
        x = x / 128;
    }
    assert(var_bytes(x as nat) == seq![x as u8]);
    out.push(x as u8);
    assert(old(out)@ + var_bytes(u as nat) =~= out@);
}


/// `128` raised to the power `n`.
pub open spec fn pow128(n: nat) -> nat
    decreases n,
{
    if n == 0 {
        1
    } else {
        128 * pow128((n - 1) as nat)
    }
}

/// Reads base-128 groups from the front of `s`, at most `groups` of them. Yields the
/// accumulated value and the number of bytes read, or `None` when the input ends before
/// a group without continuation bit, or when `groups` groups all carry one.
pub open spec fn parse_var(s: Seq<u8>, groups: nat) -> Option<(nat, nat)>
    decreases groups,
{
    if groups == 0 || s.len() == 0 {
        None
    } else if s[0] < 128 {
        Some((s[0] as nat, 1))
    } else {
        match parse_var(s.drop_first(), (groups - 1) as nat) {
            Some((v, n)) => Some((((s[0] - 128) + 128 * v) as nat, n + 1)),
            None => None,
        }
    }
}

pub proof fn lemma_pow128_mono(a: nat, b: nat)
    requires
        a <= b,
    ensures
        pow128(a) <= pow128(b),
    decreases b,
{
    if a < b {
        lemma_pow128_mono(a, (b - 1) as nat);
    }
}

proof fn lemma_parse_var_bound(s: Seq<u8>, groups: nat)
    ensures
        parse_var(s, groups) matches Some((v, n)) ==> v < pow128(n) && 1 <= n <= groups && n
            <= s.len(),
    decreases groups,
{
    assert(pow128(1) == 128 * pow128(0));
    if groups > 0 && s.len() > 0 && s[0] >= 128 {
        lemma_parse_var_bound(s.drop_first(), (groups - 1) as nat);
        if let Some((v, n)) = parse_var(s.drop_first(), (groups - 1) as nat) {
            assert(128 * v + 128 <= 128 * pow128(n)) by (nonlinear_arith)
                requires
                    v < pow128(n),
            ;
            assert(pow128(n + 1) == 128 * pow128(n));
        }
    }
}

/// Reads at most `groups` base-128 groups of `buf` from `pos` on.
fn read_var(buf: &[u8], pos: usize, groups: usize) -> (r: Option<(u128, usize)>)
    requires
        pos <= buf@.len(),
        groups <= 10,
    ensures
        match parse_var(buf@.skip(pos as int), groups as nat) {
            Some((v, n)) => r == Some((v as u128, n as usize)),
            None => r is None,
        },
    decreases groups,
{
    proof {
        lemma_parse_var_bound(buf@.skip(pos as int), groups as nat);
        lemma_pow128_mono(groups as nat, 10);
        reveal_with_fuel(pow128, 11);
        assert(pow128(10) == 1180591620717411303424);
    }
    if groups == 0 || pos == buf.len() {
        return None;
    }
    let b: u8 = buf[pos];
    if b < 128 {
        return Some((b as u128, 1));
    }
    assert(buf@.skip(pos as int).drop_first() =~= buf@.skip(pos + 1));
    proof {
        lemma_parse_var_bound(buf@.skip(pos + 1), (groups - 1) as nat);
        lemma_pow128_mono((groups - 1) as nat, 9);
        reveal_with_fuel(pow128, 10);
        assert(pow128(9) == 9223372036854775808);
    }
    match read_var(buf, pos + 1, groups - 1) {
        Some((v, n)) => Some((((b - 128) as u128) + 128 * v, n + 1)),
        None => None,
    }
}


proof fn lemma_var_bytes_len(u: nat, k: nat)
    requires
        1 <= k,
        u < pow128(k),
    ensures
        1 <= var_bytes(u).len() <= k,
    decreases u,
{
    if u >= 128 {
        assert(pow128(k) == 128 * pow128((k - 1) as nat));
        if k == 1 {
            assert(pow128(0) == 1);
        } else {
            lemma_var_bytes_len(u / 128, (k - 1) as nat);
        }
    }
}

proof fn lemma_parse_var_bytes(u: nat, rest: Seq<u8>, groups: nat)
    requires
        var_bytes(u).len() <= groups,
    ensures
        parse_var(var_bytes(u) + rest, groups) == Some((u, var_bytes(u).len())),
    decreases u,
{
    let s = var_bytes(u) + rest;
    if u >= 128 {
        assert(s.drop_first() =~= var_bytes(u / 128) + rest);
        lemma_parse_var_bytes(u / 128, rest, (groups - 1) as nat);
    }
}

/// Reading more input past a complete group sequence changes nothing.
proof fn lemma_parse_var_prefix(s: Seq<u8>, rest: Seq<u8>, groups: nat)
    requires
        parse_var(s, groups) is Some,
    ensures
        parse_var(s + rest, groups) == parse_var(s, groups),
    decreases groups,
{
    if s[0] >= 128 {
        assert((s + rest).drop_first() =~= s.drop_first() + rest);
        lemma_parse_var_prefix(s.drop_first(), rest, (groups - 1) as nat);
    }
}

proof fn lemma_parse_var_continued(s: Seq<u8>, groups: nat)
    requires
        forall|i: int| 0 <= i < groups && i < s.len() ==> s[i] >= 128,
    ensures
        parse_var(s, groups) is None,
    decreases groups,
{
    if groups > 0 && s.len() > 0 {
        assert(s[0] >= 128);
        lemma_parse_var_continued(s.drop_first(), (groups - 1) as nat);
    }
}

/// A 32-bit integer in the variable-length wire format.
#[derive(Clone, Copy, Debug, PartialEq, Eq, Structural)]
pub struct VarInt(pub i32);

/// A 64-bit integer in the variable-length wire format.
#[derive(Clone, Copy, Debug, PartialEq, Eq, Structural)]
pub struct VarLong(pub i64);

/// The most groups a `VarInt` may take.
pub const VAR_INT_MAX_GROUPS: usize = 5;

/// The most groups a `VarLong` may take.
pub const VAR_LONG_MAX_GROUPS: usize = 10;

/// Canonical encoding of `v`, taken as its unsigned 32-bit pattern.
pub open spec fn var_int_bytes(v: i32) -> Seq<u8> {
    var_bytes((v as u32) as nat)
}

/// Canonical encoding of `v`, taken as its unsigned 64-bit pattern.
pub open spec fn var_long_bytes(v: i64) -> Seq<u8> {
    var_bytes((v as u64) as nat)
}

/// The `VarInt` at the front of `s` and the number of bytes it takes.
pub open spec fn parse_var_int(s: Seq<u8>) -> Option<(i32, nat)> {
    match parse_var(s, 5) {
        Some((v, n)) => Some(((v as u32) as i32, n)),
        None => None,
    }
}

/// The `VarLong` at the front of `s` and the number of bytes it takes.
pub open spec fn parse_var_long(s: Seq<u8>) -> Option<(i64, nat)> {
    match parse_var(s, 10) {
        Some((v, n)) => Some(((v as u64) as i64, n)),
        None => None,
    }
}

impl VarInt {
    /// Appends the canonical encoding to `out`.
    pub fn write(&self, out: &mut Vec<u8>)
        ensures
            final(out)@ == old(out)@ + var_int_bytes(self.0),
    {
        write_var((self.0 as u32) as u64, out);
    }

    /// The canonical encoding: one to five bytes.
    pub fn encode(&self) -> (r: Vec<u8>)
        ensures
            r@ == var_int_bytes(self.0),
    {
        let mut out: Vec<u8> = Vec::new();
        self.write(&mut out);
        assert(out@ =~= var_int_bytes(self.0));
        out
    }

    /// Reads a `VarInt` from `buf` at `pos`; yields it with the number of bytes read.
    pub fn read(buf: &[u8], pos: usize) -> (r: Result<(VarInt, usize), DecodeError>)
        requires
            pos <= buf@.len(),
        ensures
            match parse_var_int(buf@.skip(pos as int)) {
                Some((v, n)) => r == Ok::<(VarInt, usize), DecodeError>((VarInt(v), n as usize)),
                None => r == Err::<(VarInt, usize), DecodeError>(DecodeError::MalformedVarInt),
            },
            r is Ok ==> 1 <= r->Ok_0.1 <= buf@.len() - pos,
    {
        proof {
            lemma_parse_var_bound(buf@.skip(pos as int), 5);
            reveal_with_fuel(pow128, 6);
        }
        match read_var(buf, pos, VAR_INT_MAX_GROUPS) {
            Some((v, n)) => Ok((VarInt((v as u32) as i32), n)),
            None => Err(DecodeError::MalformedVarInt),
        }
    }

    /// Reads a `VarInt` from the front of `buf`.
    pub fn decode(buf: &[u8]) -> (r: Result<(VarInt, usize), DecodeError>)
        ensures
            match parse_var_int(buf@) {
                Some((v, n)) => r == Ok::<(VarInt, usize), DecodeError>((VarInt(v), n as usize)),
                None => r == Err::<(VarInt, usize), DecodeError>(DecodeError::MalformedVarInt),
            },
    {
        assert(buf@.skip(0) =~= buf@);
        VarInt::read(buf, 0)
    }
}

impl VarLong {
    /// Appends the canonical encoding to `out`.
    pub fn write(&self, out: &mut Vec<u8>)
        ensures
            final(out)@ == old(out)@ + var_long_bytes(self.0),
    {
        write_var(self.0 as u64, out);
    }

    /// The canonical encoding: one to ten bytes.
    pub fn encode(&self) -> (r: Vec<u8>)
        ensures
            r@ == var_long_bytes(self.0),
    {
        let mut out: Vec<u8> = Vec::new();
        self.write(&mut out);
        assert(out@ =~= var_long_bytes(self.0));
        out
    }

    /// Reads a `VarLong` from `buf` at `pos`; yields it with the number of bytes read.
    pub fn read(buf: &[u8], pos: usize) -> (r: Result<(VarLong, usize), DecodeError>)
        requires
            pos <= buf@.len(),
        ensures
            match parse_var_long(buf@.skip(pos as int)) {
                Some((v, n)) => r == Ok::<(VarLong, usize), DecodeError>((VarLong(v), n as usize)),
                None => r == Err::<(VarLong, usize), DecodeError>(DecodeError::MalformedVarInt),
            },
            r is Ok ==> 1 <= r->Ok_0.1 <= buf@.len() - pos,
    {
        proof {
            lemma_parse_var_bound(buf@.skip(pos as int), 10);
            reveal_with_fuel(pow128, 11);
        }
        match read_var(buf, pos, VAR_LONG_MAX_GROUPS) {
            Some((v, n)) => Ok((VarLong((v as u64) as i64), n)),
            None => Err(DecodeError::MalformedVarInt),
        }
    }

    /// Reads a `VarLong` from the front of `buf`.
    pub fn decode(buf: &[u8]) -> (r: Result<(VarLong, usize), DecodeError>)
        ensures
            match parse_var_long(buf@) {
                Some((v, n)) => r == Ok::<(VarLong, usize), DecodeError>((VarLong(v), n as usize)),
                None => r == Err::<(VarLong, usize), DecodeError>(DecodeError::MalformedVarInt),
            },
    {
        assert(buf@.skip(0) =~= buf@);
        VarLong::read(buf, 0)
    }
}

/// Every `i32` survives encoding and decoding, and decoding reads exactly the encoded
/// bytes, whatever follows them.
pub proof fn lemma_var_int_round_trip(v: i32, rest: Seq<u8>)
    ensures
        1 <= var_int_bytes(v).len() <= 5,
        parse_var_int(var_int_bytes(v) + rest) == Some((v, var_int_bytes(v).len())),
{
    let u: u32 = v as u32;
    reveal_with_fuel(pow128, 6);
    lemma_var_bytes_len(u as nat, 5);
    lemma_parse_var_bytes(u as nat, rest, 5);
    assert(((v as u32) as i32) == v) by (bit_vector);
}

/// Every `i64` survives encoding and decoding, and decoding reads exactly the encoded
/// bytes, whatever follows them.
pub proof fn lemma_var_long_round_trip(v: i64, rest: Seq<u8>)
    ensures
        1 <= var_long_bytes(v).len() <= 10,
        parse_var_long(var_long_bytes(v) + rest) == Some((v, var_long_bytes(v).len())),
{
    let u: u64 = v as u64;
    reveal_with_fuel(pow128, 11);
    lemma_var_bytes_len(u as nat, 10);
    lemma_parse_var_bytes(u as nat, rest, 10);
    assert(((v as u64) as i64) == v) by (bit_vector);
}

/// Input that follows a complete `VarInt` does not change how it reads.
pub proof fn lemma_var_int_prefix(s: Seq<u8>, rest: Seq<u8>)
    requires
        parse_var_int(s) is Some,
    ensures
        parse_var_int(s + rest) == parse_var_int(s),
        parse_var_int(s)->Some_0.1 <= s.len(),
{
    lemma_parse_var_prefix(s, rest, 5);
    lemma_parse_var_bound(s, 5);
}

/// Five groups that all carry a continuation bit are never a `VarInt`, and nor is input
/// that ends while every group read so far carries one.
pub proof fn lemma_var_int_overlong(s: Seq<u8>)
    requires
        forall|i: int| 0 <= i < 5 && i < s.len() ==> s[i] >= 128,
    ensures
        parse_var_int(s) is None,
{
    lemma_parse_var_continued(s, 5);
}

} // verus!
