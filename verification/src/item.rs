//! Items: their kinds and what the inventory keeps of each.
use vstd::prelude::*;

verus! {

/// The kinds of item; a slot accepts some of them.
#[derive(Debug, Clone, Copy, PartialEq, Eq, Structural)]
pub enum ItemType {
    MeleeWeapon,
    RangedWeapon,
    MagicWeapon,
    Shield,
    HelmetArmor,
    ChestplateArmor,
    LeggingsArmor,
    BootsArmor,
    BaubleRing,
    BaubleCrown,
    BaubleNecklace,
    BaubleBelt,
    BaubleBack,
    BaubleBody,
}

/// Every kind of item, in declaration order.
pub open spec fn all_item_types() -> Seq<ItemType> {
    seq![
        ItemType::MeleeWeapon,
        ItemType::RangedWeapon,
        ItemType::MagicWeapon,
        ItemType::Shield,
        ItemType::HelmetArmor,
        ItemType::ChestplateArmor,
        ItemType::LeggingsArmor,
        ItemType::BootsArmor,
        ItemType::BaubleRing,
        ItemType::BaubleCrown,
        ItemType::BaubleNecklace,
        ItemType::BaubleBelt,
        ItemType::BaubleBack,
        ItemType::BaubleBody,
    ]
}

/// The name of a kind of item, as `Debug` writes it.
pub open spec fn item_type_name(t: ItemType) -> Seq<char> {
    match t {
        ItemType::MeleeWeapon => "MeleeWeapon"@,
        ItemType::RangedWeapon => "RangedWeapon"@,
        ItemType::MagicWeapon => "MagicWeapon"@,
        ItemType::Shield => "Shield"@,
        ItemType::HelmetArmor => "HelmetArmor"@,
        ItemType::ChestplateArmor => "ChestplateArmor"@,
        ItemType::LeggingsArmor => "LeggingsArmor"@,
        ItemType::BootsArmor => "BootsArmor"@,
        ItemType::BaubleRing => "BaubleRing"@,
        ItemType::BaubleCrown => "BaubleCrown"@,
        ItemType::BaubleNecklace => "BaubleNecklace"@,
        ItemType::BaubleBelt => "BaubleBelt"@,
        ItemType::BaubleBack => "BaubleBack"@,
        ItemType::BaubleBody => "BaubleBody"@,
    }
}

impl ItemType {
    /// The name of this kind of item, as `Debug` writes it.
    pub fn name(&self) -> (r: String)
        ensures
            r@ == item_type_name(*self),
    {
        match self {
            ItemType::MeleeWeapon => "MeleeWeapon".to_owned(),
            ItemType::RangedWeapon => "RangedWeapon".to_owned(),
            ItemType::MagicWeapon => "MagicWeapon".to_owned(),
            ItemType::Shield => "Shield".to_owned(),
            ItemType::HelmetArmor => "HelmetArmor".to_owned(),
            ItemType::ChestplateArmor => "ChestplateArmor".to_owned(),
            ItemType::LeggingsArmor => "LeggingsArmor".to_owned(),
            ItemType::BootsArmor => "BootsArmor".to_owned(),
            ItemType::BaubleRing => "BaubleRing".to_owned(),
            ItemType::BaubleCrown => "BaubleCrown".to_owned(),
            ItemType::BaubleNecklace => "BaubleNecklace".to_owned(),
            ItemType::BaubleBelt => "BaubleBelt".to_owned(),
            ItemType::BaubleBack => "BaubleBack".to_owned(),
            ItemType::BaubleBody => "BaubleBody".to_owned(),
        }
    }

    /// Every kind of item, in declaration order.
    pub fn all() -> (r: Vec<ItemType>)
        ensures
            r@ == all_item_types(),
    {
        let r = vec![
            ItemType::MeleeWeapon,
            ItemType::RangedWeapon,
            ItemType::MagicWeapon,
            ItemType::Shield,
            ItemType::HelmetArmor,
            ItemType::ChestplateArmor,
            ItemType::LeggingsArmor,
            ItemType::BootsArmor,
            ItemType::BaubleRing,
            ItemType::BaubleCrown,
            ItemType::BaubleNecklace,
            ItemType::BaubleBelt,
            ItemType::BaubleBack,
            ItemType::BaubleBody,
        ];
        assert(r@ =~= all_item_types());
        r
    }
}

/// An item as the inventory holds it: its name, description, kind and
/// sprites, and `gear`, the rest of what the game keeps of it (its stats),
/// which the inventory carries without reading.
#[derive(Debug, Clone)]
pub struct Item<G> {
    pub name: String,
    pub lore: String,
    pub item_type: ItemType,
    pub sprite: String,
    pub attack_sprite: Option<String>,
    pub gear: G,
}

} // verus!
