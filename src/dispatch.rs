use vstd::prelude::*;

use crate::error::{DecodeError, EncodeError};
use crate::fields::{
    i16_bytes, lemma_i16_prefix, lemma_i16_round_trip, parse_i16, read_i16, write_i16,
};
use crate::packet::{
    CFinishConfig, Direction, Packet, PacketEntry, PacketKind, PacketTable, Phase, SLoginAcknowledged,
    SSetCreativeSlot, find_code, find_kind, lemma_code_for_type_for,
};
use crate::slot::{
    Slot, lemma_slot_prefix, lemma_slot_round_trip, parse_slot, slot_bytes,
};
use crate::varint::{
    VarInt, lemma_var_int_prefix, lemma_var_int_round_trip, parse_var_int, var_int_bytes,
};

verus! {

/// The field bytes of `p`, without its code.
pub open spec fn body_bytes(p: Packet) -> Seq<u8> {
    match p {
        Packet::LoginAcknowledged(_) => Seq::empty(),
        Packet::FinishConfig(_) => Seq::empty(),
        Packet::SetCreativeSlot(c) => i16_bytes(c.slot) + slot_bytes(c.clicked_item),
    }
}

/// The fields of a packet of type `kind` at the front of `s`, with the bytes they take.
pub open spec fn parse_body(kind: PacketKind, s: Seq<u8>) -> Result<(Packet, nat), DecodeError> {
    match kind {
        PacketKind::LoginAcknowledged => Ok((Packet::LoginAcknowledged(SLoginAcknowledged), 0)),
        PacketKind::FinishConfig => Ok((Packet::FinishConfig(CFinishConfig), 0)),
        PacketKind::SetCreativeSlot => match parse_i16(s) {
            None => Err(DecodeError::TruncatedPacket),
            Some((index, n1)) => match parse_slot(s.skip(n1 as int)) {
                Err(e) => Err(e),
                Ok((item, n2)) => Ok(
                    (
                        Packet::SetCreativeSlot(SSetCreativeSlot { slot: index, clicked_item: item }),
                        n1 + n2,
                    ),
                ),
            },
        },
    }
}

/// What a frame `s` received in `direction` and `phase` decodes to under the table `es`:
/// a code, then exactly the fields of the type registered for it.
pub open spec fn spec_decode_packet(
    es: Seq<PacketEntry>,
    direction: Direction,
    phase: Phase,
    s: Seq<u8>,
) -> Result<Packet, DecodeError> {
    match parse_var_int(s) {
        None => Err(DecodeError::MalformedVarInt),
        Some((code, n)) => match find_kind(es, direction, phase, code) {
            None => Err(DecodeError::UnknownPacketCode { code, remaining: (s.len() - n) as usize }),
            Some(kind) => match parse_body(kind, s.skip(n as int)) {
                Err(e) => Err(e),
                Ok((p, m)) => if n + m < s.len() {
                    Err(DecodeError::TrailingBytes)
                } else {
                    Ok(p)
                },
            },
        },
    }
}

/// The frame for `p` sent in `direction` and `phase` under the table `es`.
pub open spec fn spec_encode_packet(
    es: Seq<PacketEntry>,
    direction: Direction,
    phase: Phase,
    p: Packet,
) -> Result<Seq<u8>, EncodeError> {
    match find_code(es, p.spec_kind(), direction, phase) {
        None => Err(EncodeError::UnregisteredPacketType),
        Some(code) => Ok(var_int_bytes(code) + body_bytes(p)),
    }
}

/// Appends the fields of `p` to `out`.
pub fn write_body(p: &Packet, out: &mut Vec<u8>)
    requires
        p.wf(),
    ensures
        final(out)@ == old(out)@ + body_bytes(*p),
{
    match p {
        Packet::LoginAcknowledged(_) => {
            assert(out@ =~= old(out)@ + body_bytes(*p));
        },
        Packet::FinishConfig(_) => {
            assert(out@ =~= old(out)@ + body_bytes(*p));
        },
        Packet::SetCreativeSlot(c) => {
            write_i16(c.slot, out);
            c.clicked_item.write(out);
            assert(out@ =~= old(out)@ + body_bytes(*p));
        },
    }
}

/// Reads the fields of a packet of type `kind` from `buf` at `pos`.
pub fn read_body(kind: PacketKind, buf: &[u8], pos: usize) -> (r: Result<(Packet, usize), DecodeError>)
    requires
        pos <= buf@.len(),
    ensures
        match parse_body(kind, buf@.skip(pos as int)) {
            Ok((p, n)) => r is Ok && r->Ok_0.0 == p && r->Ok_0.1 == n,
            Err(e) => r == Err::<(Packet, usize), DecodeError>(e),
        },
        r is Ok ==> r->Ok_0.1 <= buf@.len() - pos,
{
    match kind {
        PacketKind::LoginAcknowledged => Ok((Packet::LoginAcknowledged(SLoginAcknowledged), 0)),
        PacketKind::FinishConfig => Ok((Packet::FinishConfig(CFinishConfig), 0)),
        PacketKind::SetCreativeSlot => {
            // ties the slice's length to usize
            let _len = buf.len();
            let (index, n1) = match read_i16(buf, pos) {
                Ok(x) => x,
                Err(e) => {
                    return Err(e);
                },
            };
            proof {
                lemma_i16_prefix(buf@.skip(pos as int), Seq::empty());
            }
            assert(buf@.skip(pos as int).skip(n1 as int) =~= buf@.skip(pos + n1));
            let (item, n2) = match Slot::read(buf, pos + n1) {
                Ok(x) => x,
                Err(e) => {
                    return Err(e);
                },
            };
            proof {
                lemma_slot_prefix(buf@.skip(pos + n1), Seq::empty());
            }
            assert(n2 == parse_slot(buf@.skip(pos + n1))->Ok_0.1);
            Ok((Packet::SetCreativeSlot(SSetCreativeSlot { slot: index, clicked_item: item }), n1 + n2))
        },
    }
}

/// Decodes one frame received in `direction` and `phase`: its leading code selects the
/// packet type in `table`, whose fields must take up the rest of the frame exactly.
pub fn decode_packet(table: &PacketTable, direction: Direction, phase: Phase, buf: &[u8]) -> (r:
    Result<Packet, DecodeError>)
    ensures
        r == spec_decode_packet(table@, direction, phase, buf@),
{
    let len = buf.len();
    let (code, n) = match VarInt::read(buf, 0) {
        Ok(x) => x,
        Err(e) => {
            assert(buf@.skip(0) =~= buf@);
            return Err(e);
        },
    };
    assert(buf@.skip(0) =~= buf@);
    proof {
        lemma_var_int_prefix(buf@, Seq::empty());
    }
    assert(n == parse_var_int(buf@)->Some_0.1);
    let kind = match table.type_for(direction, phase, code.0) {
        None => {
            return Err(DecodeError::UnknownPacketCode { code: code.0, remaining: len - n });
        },
        Some(k) => k,
    };
    let (packet, m) = match read_body(kind, buf, n) {
        Ok(x) => x,
        Err(e) => {
            return Err(e);
        },
    };
    if n + m < len {
        Err(DecodeError::TrailingBytes)
    } else {
        Ok(packet)
    }
}

/// Encodes `packet` for sending in `direction` and `phase`: its code from `table`, then
/// its fields.
pub fn encode_packet(table: &PacketTable, direction: Direction, phase: Phase, packet: &Packet) -> (r:
    Result<Vec<u8>, EncodeError>)
    requires
        packet.wf(),
    ensures
        match spec_encode_packet(table@, direction, phase, *packet) {
            Ok(b) => r is Ok && r->Ok_0@ == b,
            Err(e) => r == Err::<Vec<u8>, EncodeError>(e),
        },
{
    let code = match table.code_for(packet.kind(), direction, phase) {
        None => {
            return Err(EncodeError::UnregisteredPacketType);
        },
        Some(c) => c,
    };
    let mut out: Vec<u8> = Vec::new();
    VarInt(code).write(&mut out);
    write_body(packet, &mut out);
    assert(out@ =~= var_int_bytes(code) + body_bytes(*packet));
    Ok(out)
}

proof fn lemma_body_prefix(kind: PacketKind, s: Seq<u8>, rest: Seq<u8>)
    requires
        parse_body(kind, s) is Ok,
    ensures
        parse_body(kind, s + rest) == parse_body(kind, s),
        parse_body(kind, s)->Ok_0.1 <= s.len(),
{
    if kind == PacketKind::SetCreativeSlot {
        lemma_i16_prefix(s, rest);
        assert((s + rest).skip(2) =~= s.skip(2) + rest);
        lemma_slot_prefix(s.skip(2), rest);
    }
}

proof fn lemma_body_round_trip(p: Packet, rest: Seq<u8>)
    requires
        p.wf(),
    ensures
        parse_body(p.spec_kind(), body_bytes(p) + rest) == Ok::<(Packet, nat), DecodeError>(
            (p, body_bytes(p).len()),
        ),
{
    if let Packet::SetCreativeSlot(c) = p {
        let bs = slot_bytes(c.clicked_item);
        let full = body_bytes(p) + rest;
        lemma_i16_round_trip(c.slot, bs + rest);
        assert(full =~= i16_bytes(c.slot) + (bs + rest));
        assert(full.skip(2) =~= bs + rest);
        lemma_slot_round_trip(c.clicked_item, rest);
    }
}

/// A frame whose leading code has no type in the current direction and phase is refused
/// as unknown, with that code and the count of bytes after it; what those bytes hold
/// plays no part.
pub proof fn lemma_unknown_code(
    t: &PacketTable,
    direction: Direction,
    phase: Phase,
    head: Seq<u8>,
    tail: Seq<u8>,
)
    requires
        parse_var_int(head) matches Some((code, n)) && n == head.len() && find_kind(
            t@,
            direction,
            phase,
            code,
        ) is None,
    ensures
        spec_decode_packet(t@, direction, phase, head + tail) == Err::<Packet, DecodeError>(
            DecodeError::UnknownPacketCode {
                code: parse_var_int(head)->Some_0.0,
                remaining: tail.len() as usize,
            },
        ),
{
    lemma_var_int_prefix(head, tail);
}

/// A frame that decodes to a packet is refused once a single byte is added after it.
pub proof fn lemma_strict_framing(
    t: &PacketTable,
    direction: Direction,
    phase: Phase,
    s: Seq<u8>,
    extra: u8,
)
    requires
        spec_decode_packet(t@, direction, phase, s) is Ok,
    ensures
        spec_decode_packet(t@, direction, phase, s.push(extra)) == Err::<Packet, DecodeError>(
            DecodeError::TrailingBytes,
        ),
{
    let rest = seq![extra];
    assert(s.push(extra) =~= s + rest);
    lemma_var_int_prefix(s, rest);
    let (code, n) = parse_var_int(s)->Some_0;
    let kind = find_kind(t@, direction, phase, code)->Some_0;
    assert((s + rest).skip(n as int) =~= s.skip(n as int) + rest);
    lemma_body_prefix(kind, s.skip(n as int), rest);
}

/// Under a well-formed table, a packet encoded for a direction and phase decodes, in the
/// same direction and phase, to the same packet.
pub proof fn lemma_packet_round_trip(t: &PacketTable, direction: Direction, phase: Phase, p: Packet)
    requires
        t.wf(),
        p.wf(),
        spec_encode_packet(t@, direction, phase, p) is Ok,
    ensures
        spec_decode_packet(t@, direction, phase, spec_encode_packet(t@, direction, phase, p)->Ok_0)
            == Ok::<Packet, DecodeError>(p),
{
    let code = find_code(t@, p.spec_kind(), direction, phase)->Some_0;
    let body = body_bytes(p);
    let b = var_int_bytes(code) + body;
    lemma_var_int_round_trip(code, body);
    lemma_code_for_type_for(t, p.spec_kind(), direction, phase);
    assert(b.skip(var_int_bytes(code).len() as int) =~= body + Seq::<u8>::empty());
    lemma_body_round_trip(p, Seq::empty());
}

} // verus!
