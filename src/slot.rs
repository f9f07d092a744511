use vstd::prelude::*;

use crate::error::DecodeError;
use crate::item::{ItemRegistry, ItemStack, spec_lookup_item, ItemDescriptor};
use crate::varint::{
    VarInt, lemma_var_int_prefix, lemma_var_int_round_trip, parse_var_int, var_int_bytes,
};

verus! {

/// One inventory position on the wire. A count of zero is the empty slot; any other
/// count comes with an item id. Item components have no supported layout, so their
/// counts are always written and read as zero.
#[derive(Clone, Copy, Debug, PartialEq, Eq, Structural)]
pub struct Slot {
    pub item_count: VarInt,
    pub item_id: Option<VarInt>,
}

/// Why a slot could not become an item stack.
#[derive(Clone, Copy, Debug, PartialEq, Eq, Structural)]
pub enum StackError {
    /// The id is negative, wider than an item id, or unknown to the registry.
    InvalidItemId,
    /// The count exceeds the item's maximum stack size.
    OversizedStack,
    /// The count is negative.
    InvalidStackCount,
}

impl Slot {
    /// An occupied slot names its item, and the empty slot names none.
    pub open spec fn wf(&self) -> bool {
        count_means_empty(self.item_count.0) <==> self.item_id is None
    }

    pub open spec fn spec_is_empty(&self) -> bool {
        count_means_empty(self.item_count.0)
    }
}

/// The one test that decides a slot's shape on the wire, shared by writing and reading.
pub open spec fn count_means_empty(count: i32) -> bool {
    count == 0
}

/// Whether a slot with this count is the empty slot.
pub fn is_empty_count(count: VarInt) -> (r: bool)
    ensures
        r == count_means_empty(count.0),
{
    count.0 == 0
}

/// The empty slot.
pub open spec fn empty_slot() -> Slot {
    Slot { item_count: VarInt(0), item_id: None }
}

/// The slot for `count` items of type `item_id`: the empty slot when the count is zero.
pub open spec fn slot_of(item_id: u16, count: u32) -> Slot {
    if count_means_empty(count as i32) {
        empty_slot()
    } else {
        Slot { item_count: VarInt(count as i32), item_id: Some(VarInt(item_id as i32)) }
    }
}

/// The bytes written for `s`: a zero count alone, or count, item id and two zero
/// component counts.
pub open spec fn slot_bytes(s: Slot) -> Seq<u8> {
    if s.spec_is_empty() {
        var_int_bytes(0)
    } else {
        match s.item_id {
            Some(id) => var_int_bytes(s.item_count.0) + var_int_bytes(id.0) + var_int_bytes(0)
                + var_int_bytes(0),
            None => Seq::empty(),
        }
    }
}

/// The slot at the front of `s` and the number of bytes it takes.
pub open spec fn parse_slot(s: Seq<u8>) -> Result<(Slot, nat), DecodeError> {
    match parse_var_int(s) {
        None => Err(DecodeError::MalformedVarInt),
        Some((count, n1)) => if count_means_empty(count) {
            Ok((empty_slot(), n1))
        } else {
            match parse_var_int(s.skip(n1 as int)) {
                None => Err(DecodeError::MalformedVarInt),
                Some((id, n2)) => match parse_var_int(s.skip((n1 + n2) as int)) {
                    None => Err(DecodeError::MalformedVarInt),
                    Some((add, n3)) => match parse_var_int(s.skip((n1 + n2 + n3) as int)) {
                        None => Err(DecodeError::MalformedVarInt),
                        Some((remove, n4)) => if add != 0 || remove != 0 {
                            Err(DecodeError::UnsupportedSlotComponents)
                        } else {
                            Ok(
                                (
                                    Slot { item_count: VarInt(count), item_id: Some(VarInt(id)) },
                                    n1 + n2 + n3 + n4,
                                ),
                            )
                        },
                    },
                },
            }
        },
    }
}

/// The item stack that `s` stands for under the item table `items`.
pub open spec fn slot_to_stack(s: Slot, items: Seq<ItemDescriptor>) -> Result<
    Option<ItemStack>,
    StackError,
> {
    if count_means_empty(s.item_count.0) {
        Ok(None)
    } else {
        match s.item_id {
            None => Ok(None),
            Some(id) => if id.0 < 0 || id.0 > u16::MAX {
                Err(StackError::InvalidItemId)
            } else {
                match spec_lookup_item(items, id.0 as u16) {
                    None => Err(StackError::InvalidItemId),
                    Some(d) => if s.item_count.0 > d.max_stack_size {
                        Err(StackError::OversizedStack)
                    } else if s.item_count.0 < 0 {
                        Err(StackError::InvalidStackCount)
                    } else {
                        Ok(
                            Some(
                                ItemStack { item_id: id.0 as u16, item_count: s.item_count.0 as u8 },
                            ),
                        )
                    },
                }
            },
        }
    }
}

proof fn lemma_var_int_fits(s: Seq<u8>)
    requires
        parse_var_int(s) is Some,
    ensures
        parse_var_int(s)->Some_0.1 <= s.len(),
{
    lemma_var_int_prefix(s, Seq::empty());
}

impl Slot {
    /// A slot holding `count` items of type `item_id`; the empty slot for a zero count.
    pub fn new(item_id: u16, count: u32) -> (r: Slot)
        ensures
            r == slot_of(item_id, count),
            r.wf(),
    {
        let item_count = VarInt(count as i32);
        if is_empty_count(item_count) {
            Slot::empty()
        } else {
            Slot { item_count, item_id: Some(VarInt(item_id as i32)) }
        }
    }

    /// The empty slot.
    pub fn empty() -> (r: Slot)
        ensures
            r == empty_slot(),
            r.wf(),
    {
        Slot { item_count: VarInt(0), item_id: None }
    }

    /// Whether the slot holds nothing, which is what decides its shape on the wire.
    pub fn is_empty(&self) -> (r: bool)
        ensures
            r == self.spec_is_empty(),
    {
        is_empty_count(self.item_count)
    }

    /// The slot for a stack; the empty slot for a stack of no items.
    pub fn from_stack(stack: &ItemStack) -> (r: Slot)
        ensures
            r == slot_of(stack.item_id, stack.item_count as u32),
            r.wf(),
    {
        Slot::new(stack.item_id, stack.item_count as u32)
    }

    /// The slot for a stack, or the empty slot where there is none.
    pub fn from_optional_stack(stack: Option<&ItemStack>) -> (r: Slot)
        ensures
            r == (match stack {
                Some(st) => slot_of(st.item_id, st.item_count as u32),
                None => empty_slot(),
            }),
            r.wf(),
    {
        match stack {
            Some(st) => Slot::from_stack(st),
            None => Slot::empty(),
        }
    }

    /// The item stack this slot stands for, checked against `registry`; `None` for the
    /// empty slot.
    pub fn to_stack(self, registry: &ItemRegistry) -> (r: Result<Option<ItemStack>, StackError>)
        ensures
            r == slot_to_stack(self, registry@),
    {
        if is_empty_count(self.item_count) {
            return Ok(None);
        }
        let id = match self.item_id {
            None => {
                return Ok(None);
            },
            Some(id) => id,
        };
        if id.0 < 0 || id.0 > 65535 {
            return Err(StackError::InvalidItemId);
        }
        let item = match registry.lookup_item(id.0 as u16) {
            None => {
                return Err(StackError::InvalidItemId);
            },
            Some(d) => d,
        };
        if self.item_count.0 > item.max_stack_size as i32 {
            Err(StackError::OversizedStack)
        } else if self.item_count.0 < 0 {
            Err(StackError::InvalidStackCount)
        } else {
            Ok(Some(ItemStack { item_id: id.0 as u16, item_count: self.item_count.0 as u8 }))
        }
    }

    /// Appends the slot's wire form to `out`.
    pub fn write(&self, out: &mut Vec<u8>)
        requires
            self.wf(),
        ensures
            final(out)@ == old(out)@ + slot_bytes(*self),
    {
        if self.is_empty() {
            VarInt(0).write(out);
        } else {
            let id = match self.item_id {
                Some(id) => id,
                None => VarInt(0),
            };
            self.item_count.write(out);
            id.write(out);
            VarInt(0).write(out);
            VarInt(0).write(out);
            assert(out@ =~= old(out)@ + slot_bytes(*self));
        }
    }

    /// The slot's wire form.
    pub fn encode(&self) -> (r: Vec<u8>)
        requires
            self.wf(),
        ensures
            r@ == slot_bytes(*self),
    {
        let mut out: Vec<u8> = Vec::new();
        self.write(&mut out);
        assert(out@ =~= slot_bytes(*self));
        out
    }

    /// Reads a slot from `buf` at `pos`; yields it with the number of bytes read.
    pub fn read(buf: &[u8], pos: usize) -> (r: Result<(Slot, usize), DecodeError>)
        requires
            pos <= buf@.len(),
        ensures
            match parse_slot(buf@.skip(pos as int)) {
                Ok((s, n)) => r == Ok::<(Slot, usize), DecodeError>((s, n as usize)),
                Err(e) => r == Err::<(Slot, usize), DecodeError>(e),
            },
            r is Ok ==> 1 <= r->Ok_0.1 <= buf@.len() - pos,
    {
        let ghost s = buf@.skip(pos as int);
        // ties the slice's length to usize
        let _len = buf.len();
        let (count, n1) = match VarInt::read(buf, pos) {
            Ok(x) => x,
            Err(e) => {
                return Err(e);
            },
        };
        proof {
            lemma_var_int_fits(s);
        }
        if is_empty_count(count) {
            return Ok((Slot::empty(), n1));
        }
        let p2 = pos + n1;
        assert(s.skip(n1 as int) =~= buf@.skip(p2 as int));
        let (id, n2) = match VarInt::read(buf, p2) {
            Ok(x) => x,
            Err(e) => {
                return Err(e);
            },
        };
        proof {
            lemma_var_int_fits(buf@.skip(p2 as int));
        }
        let p3 = p2 + n2;
        assert(s.skip((n1 + n2) as int) =~= buf@.skip(p3 as int));
        let (add, n3) = match VarInt::read(buf, p3) {
            Ok(x) => x,
            Err(e) => {
                return Err(e);
            },
        };
        proof {
            lemma_var_int_fits(buf@.skip(p3 as int));
        }
        let p4 = p3 + n3;
        assert(s.skip((n1 + n2 + n3) as int) =~= buf@.skip(p4 as int));
        let (remove, n4) = match VarInt::read(buf, p4) {
            Ok(x) => x,
            Err(e) => {
                return Err(e);
            },
        };
        proof {
            lemma_var_int_fits(buf@.skip(p4 as int));
        }
        if add.0 != 0 || remove.0 != 0 {
            return Err(DecodeError::UnsupportedSlotComponents);
        }
        Ok((Slot { item_count: count, item_id: Some(id) }, n1 + n2 + n3 + n4))
    }

    /// Reads a slot from the front of `buf`.
    pub fn decode(buf: &[u8]) -> (r: Result<(Slot, usize), DecodeError>)
        ensures
            match parse_slot(buf@) {
                Ok((s, n)) => r == Ok::<(Slot, usize), DecodeError>((s, n as usize)),
                Err(e) => r == Err::<(Slot, usize), DecodeError>(e),
            },
    {
        assert(buf@.skip(0) =~= buf@);
        Slot::read(buf, 0)
    }
}

/// Writing a slot and reading it back gives the same slot, and reading takes exactly the
/// bytes written, whatever follows.
pub proof fn lemma_slot_round_trip(s: Slot, rest: Seq<u8>)
    requires
        s.wf(),
    ensures
        parse_slot(slot_bytes(s) + rest) == Ok::<(Slot, nat), DecodeError>(
            (s, slot_bytes(s).len()),
        ),
{
    if s.spec_is_empty() {
        lemma_var_int_round_trip(0, rest);
    } else {
        let id = s.item_id->Some_0.0;
        let bc = var_int_bytes(s.item_count.0);
        let bi = var_int_bytes(id);
        let bz = var_int_bytes(0);
        let full = slot_bytes(s) + rest;
        lemma_var_int_round_trip(s.item_count.0, bi + bz + bz + rest);
        lemma_var_int_round_trip(id, bz + bz + rest);
        lemma_var_int_round_trip(0, bz + rest);
        lemma_var_int_round_trip(0, rest);
        assert(full =~= bc + (bi + bz + bz + rest));
        assert(full.skip(bc.len() as int) =~= bi + (bz + bz + rest));
        assert(full.skip((bc.len() + bi.len()) as int) =~= bz + (bz + rest));
        assert(full.skip((bc.len() + bi.len() + bz.len()) as int) =~= bz + rest);
    }
}

/// Input that follows a complete slot does not change how it reads, and a slot never
/// claims more bytes than its input has.
pub proof fn lemma_slot_prefix(s: Seq<u8>, rest: Seq<u8>)
    requires
        parse_slot(s) is Ok,
    ensures
        parse_slot(s + rest) == parse_slot(s),
        parse_slot(s)->Ok_0.1 <= s.len(),
{
    lemma_var_int_prefix(s, rest);
    let n1 = parse_var_int(s)->Some_0.1;
    if parse_var_int(s)->Some_0.0 != 0 {
        let s2 = s.skip(n1 as int);
        assert((s + rest).skip(n1 as int) =~= s2 + rest);
        lemma_var_int_prefix(s2, rest);
        let n2 = parse_var_int(s2)->Some_0.1;
        let s3 = s.skip((n1 + n2) as int);
        assert(s2.skip(n2 as int) =~= s3);
        assert((s + rest).skip((n1 + n2) as int) =~= s3 + rest);
        lemma_var_int_prefix(s3, rest);
        let n3 = parse_var_int(s3)->Some_0.1;
        let s4 = s.skip((n1 + n2 + n3) as int);
        assert(s3.skip(n3 as int) =~= s4);
        assert((s + rest).skip((n1 + n2 + n3) as int) =~= s4 + rest);
        lemma_var_int_prefix(s4, rest);
    }
}

/// A slot whose count exceeds its item's maximum stack size is refused as oversized,
/// and one whose non-zero count is exactly that maximum becomes a stack.
pub proof fn lemma_stack_size_bound(s: Slot, items: Seq<ItemDescriptor>)
    requires
        s.item_id is Some,
        0 <= s.item_id->Some_0.0 < items.len(),
        s.item_id->Some_0.0 <= u16::MAX,
    ensures
        s.item_count.0 > items[s.item_id->Some_0.0 as int].max_stack_size ==> slot_to_stack(
            s,
            items,
        ) == Err::<Option<ItemStack>, StackError>(StackError::OversizedStack),
        s.item_count.0 != 0 && s.item_count.0 == items[s.item_id->Some_0.0 as int].max_stack_size
            ==> slot_to_stack(
            s,
            items,
        ) is Ok && slot_to_stack(s, items)->Ok_0 is Some,
{
}

} // verus!
