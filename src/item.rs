use vstd::prelude::*;

verus! {

/// The pick-ups a wave can drop.
#[derive(Clone, Copy, PartialEq, Eq, Structural, Debug)]
pub enum ItemType {
    Pizza,
    Biboran,
}

/// A request to the item factory: place `count` items of one type.
#[derive(Clone, Copy, PartialEq, Eq, Structural, Debug)]
pub struct SpawnItemEvent {
    pub count: u32,
    pub item_type: ItemType,
}

} // verus!
