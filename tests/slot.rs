use pumpkin_protocol::error::DecodeError;
use pumpkin_protocol::item::{ItemDescriptor, ItemRegistry, ItemStack};
use pumpkin_protocol::slot::{Slot, StackError};
use pumpkin_protocol::varint::VarInt;

fn registry() -> ItemRegistry {
    let mut items = vec![ItemDescriptor { max_stack_size: 64 }; 11];
    items[1] = ItemDescriptor { max_stack_size: 1 };
    items[10] = ItemDescriptor { max_stack_size: 16 };
    ItemRegistry::new(items)
}

#[test]
fn empty_slot_encodes_as_zero() {
    assert_eq!(Slot::empty().encode(), vec![0x00]);
}

#[test]
fn zero_decodes_to_empty_slot() {
    assert_eq!(Slot::decode(&[0x00]), Ok((Slot::empty(), 1)));
}

#[test]
fn empty_slot_reads_one_byte_only() {
    assert_eq!(Slot::decode(&[0x00, 0x05, 0x06]), Ok((Slot::empty(), 1)));
}

#[test]
fn occupied_slot_round_trip() {
    let slot = Slot::new(10, 5);
    let bytes = slot.encode();
    assert_eq!(bytes, vec![5, 10, 0, 0]);
    assert_eq!(Slot::decode(&bytes), Ok((slot, bytes.len())));
}

#[test]
fn zero_count_slot_encodes_empty() {
    let slot = Slot::new(10, 0);
    assert_eq!(slot.encode(), vec![0x00]);
    assert!(slot.is_empty());
}

#[test]
fn zero_count_slot_is_the_empty_slot() {
    assert_eq!(Slot::new(10, 0), Slot::empty());
    assert_eq!(Slot::from_stack(&ItemStack { item_id: 4, item_count: 0 }), Slot::empty());
}

#[test]
fn zero_count_slot_has_no_stack() {
    assert_eq!(Slot::new(5, 0).to_stack(&registry()), Ok(None));
    let slot = Slot { item_count: VarInt(0), item_id: Some(VarInt(5)) };
    assert_eq!(slot.to_stack(&registry()), Ok(None));
}

#[test]
fn slot_with_components_to_add_is_refused() {
    assert_eq!(Slot::decode(&[1, 1, 2, 0]), Err(DecodeError::UnsupportedSlotComponents));
}

#[test]
fn slot_with_components_to_remove_is_refused() {
    assert_eq!(Slot::decode(&[1, 1, 0, 3]), Err(DecodeError::UnsupportedSlotComponents));
}

#[test]
fn truncated_slot_is_refused() {
    assert_eq!(Slot::decode(&[1, 1, 0]), Err(DecodeError::MalformedVarInt));
}

#[test]
fn oversized_stack_is_refused() {
    assert_eq!(Slot::new(10, 17).to_stack(&registry()), Err(StackError::OversizedStack));
}

#[test]
fn stack_at_maximum_is_accepted() {
    assert_eq!(
        Slot::new(10, 16).to_stack(&registry()),
        Ok(Some(ItemStack { item_id: 10, item_count: 16 }))
    );
}

#[test]
fn empty_slot_has_no_stack() {
    assert_eq!(Slot::empty().to_stack(&registry()), Ok(None));
}

#[test]
fn unknown_item_is_refused() {
    assert_eq!(Slot::new(11, 1).to_stack(&registry()), Err(StackError::InvalidItemId));
}

#[test]
fn item_id_out_of_range_is_refused() {
    let slot = Slot { item_count: VarInt(1), item_id: Some(VarInt(70000)) };
    assert_eq!(slot.to_stack(&registry()), Err(StackError::InvalidItemId));
    let slot = Slot { item_count: VarInt(1), item_id: Some(VarInt(-1)) };
    assert_eq!(slot.to_stack(&registry()), Err(StackError::InvalidItemId));
}

#[test]
fn negative_count_is_refused() {
    let slot = Slot { item_count: VarInt(-1), item_id: Some(VarInt(2)) };
    assert_eq!(slot.to_stack(&registry()), Err(StackError::InvalidStackCount));
}

#[test]
fn slot_from_stack() {
    let stack = ItemStack { item_id: 3, item_count: 12 };
    assert_eq!(Slot::from_stack(&stack), Slot::new(3, 12));
    assert_eq!(Slot::from_optional_stack(Some(&stack)), Slot::new(3, 12));
    assert_eq!(Slot::from_optional_stack(None), Slot::empty());
}

#[test]
fn registry_lookup() {
    let r = registry();
    assert_eq!(r.len(), 11);
    assert_eq!(r.lookup_item(1), Some(ItemDescriptor { max_stack_size: 1 }));
    assert_eq!(r.lookup_item(11), None);
}
