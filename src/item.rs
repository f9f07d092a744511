use vstd::prelude::*;

verus! {

/// What the item registry knows of one item type.
#[derive(Clone, Copy, Debug, PartialEq, Eq, Structural)]
pub struct ItemDescriptor {
    /// The most items of this type that one stack may hold.
    pub max_stack_size: u8,
}

/// A stack of items of one type, as the game handles it.
#[derive(Clone, Copy, Debug, PartialEq, Eq, Structural)]
pub struct ItemStack {
    pub item_id: u16,
    pub item_count: u8,
}

/// The item table, indexed by item id. It is read only once built.
pub struct ItemRegistry {
    items: Vec<ItemDescriptor>,
}

impl View for ItemRegistry {
    type V = Seq<ItemDescriptor>;

    closed spec fn view(&self) -> Seq<ItemDescriptor> {
        self.items@
    }
}

/// The descriptor of item `id` in the table `items`, if it has one.
pub open spec fn spec_lookup_item(items: Seq<ItemDescriptor>, id: u16) -> Option<ItemDescriptor> {
    if (id as int) < items.len() {
        Some(items[id as int])
    } else {
        None
    }
}

impl ItemRegistry {
    /// A registry whose item `i` is described by `items[i]`.
    pub fn new(items: Vec<ItemDescriptor>) -> (r: ItemRegistry)
        ensures
            r@ == items@,
    {
        ItemRegistry { items }
    }

    /// The number of known item types.
    pub fn len(&self) -> (r: usize)
        ensures
            r == self@.len(),
    {
        self.items.len()
    }

    /// The descriptor of item `id`, or `None` for an unknown item.
    pub fn lookup_item(&self, id: u16) -> (r: Option<ItemDescriptor>)
        ensures
            r == spec_lookup_item(self@, id),
    {
        if (id as usize) < self.items.len() {
            Some(self.items[id as usize])
        } else {
            None
        }
    }
}

} // verus!
