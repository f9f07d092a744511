use pumpkin_protocol::dispatch::{decode_packet, encode_packet};
use pumpkin_protocol::error::{DecodeError, EncodeError};
use pumpkin_protocol::packet::{
    CFinishConfig, Direction, Packet, PacketEntry, PacketKind, PacketTable, Phase,
    SLoginAcknowledged, SSetCreativeSlot,
};
use pumpkin_protocol::slot::Slot;

#[test]
fn login_acknowledged_decodes() {
    let t = PacketTable::standard();
    assert_eq!(
        decode_packet(&t, Direction::Serverbound, Phase::Login, &[0x03]),
        Ok(Packet::LoginAcknowledged(SLoginAcknowledged))
    );
}

#[test]
fn trailing_byte_is_refused() {
    let t = PacketTable::standard();
    assert_eq!(
        decode_packet(&t, Direction::Serverbound, Phase::Login, &[0x03, 0x00]),
        Err(DecodeError::TrailingBytes)
    );
}

#[test]
fn code_of_another_phase_is_unknown() {
    let t = PacketTable::standard();
    assert_eq!(
        decode_packet(&t, Direction::Serverbound, Phase::Play, &[0x03, 0x01]),
        Err(DecodeError::UnknownPacketCode { code: 3, remaining: 1 })
    );
}

#[test]
fn unknown_code_ignores_the_rest() {
    let t = PacketTable::standard();
    assert_eq!(
        decode_packet(&t, Direction::Serverbound, Phase::Login, &[0x7f, 0x80, 0x80]),
        Err(DecodeError::UnknownPacketCode { code: 127, remaining: 2 })
    );
}

#[test]
fn same_code_differs_by_direction() {
    let t = PacketTable::standard();
    assert_eq!(
        decode_packet(&t, Direction::Clientbound, Phase::Configuration, &[0x03]),
        Ok(Packet::FinishConfig(CFinishConfig))
    );
    assert_eq!(
        decode_packet(&t, Direction::Clientbound, Phase::Login, &[0x03]),
        Err(DecodeError::UnknownPacketCode { code: 3, remaining: 0 })
    );
}

#[test]
fn empty_frame_is_malformed() {
    let t = PacketTable::standard();
    assert_eq!(
        decode_packet(&t, Direction::Serverbound, Phase::Login, &[]),
        Err(DecodeError::MalformedVarInt)
    );
}

#[test]
fn set_creative_slot_round_trip() {
    let t = PacketTable::standard();
    let p = Packet::SetCreativeSlot(SSetCreativeSlot { slot: 36, clicked_item: Slot::new(1, 64) });
    let bytes = encode_packet(&t, Direction::Serverbound, Phase::Play, &p).unwrap();
    assert_eq!(bytes, vec![0x36, 0x00, 0x24, 0x40, 0x01, 0x00, 0x00]);
    assert_eq!(decode_packet(&t, Direction::Serverbound, Phase::Play, &bytes), Ok(p));
}

#[test]
fn set_creative_slot_truncated() {
    let t = PacketTable::standard();
    assert_eq!(
        decode_packet(&t, Direction::Serverbound, Phase::Play, &[0x36, 0x00]),
        Err(DecodeError::TruncatedPacket)
    );
}

#[test]
fn set_creative_slot_with_components_is_refused() {
    let t = PacketTable::standard();
    assert_eq!(
        decode_packet(&t, Direction::Serverbound, Phase::Play, &[0x36, 0x00, 0x01, 1, 1, 2, 0]),
        Err(DecodeError::UnsupportedSlotComponents)
    );
}

#[test]
fn encode_login_acknowledged() {
    let t = PacketTable::standard();
    let p = Packet::LoginAcknowledged(SLoginAcknowledged);
    assert_eq!(encode_packet(&t, Direction::Serverbound, Phase::Login, &p), Ok(vec![0x03]));
    assert_eq!(p.kind(), PacketKind::LoginAcknowledged);
}

#[test]
fn encode_in_wrong_phase_is_unregistered() {
    let t = PacketTable::standard();
    let p = Packet::LoginAcknowledged(SLoginAcknowledged);
    assert_eq!(
        encode_packet(&t, Direction::Serverbound, Phase::Play, &p),
        Err(EncodeError::UnregisteredPacketType)
    );
}

fn entry(kind: PacketKind, phase: Phase, code: i32) -> PacketEntry {
    PacketEntry { kind, direction: Direction::Serverbound, phase, code }
}

#[test]
fn table_refuses_shared_code() {
    let rows = vec![
        entry(PacketKind::LoginAcknowledged, Phase::Login, 3),
        entry(PacketKind::SetCreativeSlot, Phase::Login, 3),
    ];
    assert!(PacketTable::new(rows).is_none());
}

#[test]
fn table_refuses_type_with_two_codes() {
    let rows = vec![
        entry(PacketKind::LoginAcknowledged, Phase::Login, 3),
        entry(PacketKind::LoginAcknowledged, Phase::Login, 4),
    ];
    assert!(PacketTable::new(rows).is_none());
}

#[test]
fn table_refuses_negative_code() {
    assert!(PacketTable::new(vec![entry(PacketKind::FinishConfig, Phase::Play, -1)]).is_none());
}

#[test]
fn table_accepts_code_reused_across_phases() {
    let rows = vec![
        entry(PacketKind::LoginAcknowledged, Phase::Login, 3),
        entry(PacketKind::SetCreativeSlot, Phase::Play, 3),
    ];
    let t = PacketTable::new(rows).unwrap();
    assert_eq!(t.len(), 2);
    assert_eq!(t.type_for(Direction::Serverbound, Phase::Play, 3), Some(PacketKind::SetCreativeSlot));
    assert_eq!(t.code_for(PacketKind::LoginAcknowledged, Direction::Serverbound, Phase::Login), Some(3));
    assert_eq!(t.type_for(Direction::Clientbound, Phase::Play, 3), None);
}

#[test]
fn standard_table_codes_are_unique() {
    let t = PacketTable::standard();
    assert_eq!(t.len(), 3);
    let dirs = [Direction::Serverbound, Direction::Clientbound];
    let phases = [Phase::Handshake, Phase::Status, Phase::Login, Phase::Configuration, Phase::Play];
    let kinds = [PacketKind::LoginAcknowledged, PacketKind::FinishConfig, PacketKind::SetCreativeSlot];
    for d in dirs {
        for ph in phases {
            for k in kinds {
                if let Some(c) = t.code_for(k, d, ph) {
                    assert_eq!(t.type_for(d, ph, c), Some(k));
                }
            }
        }
    }
}
