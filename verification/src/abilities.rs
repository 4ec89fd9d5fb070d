//! Player abilities and attacks: which held item an ability can be started
//! with, and what a left click makes of the held weapon.
use vstd::prelude::*;
use crate::item::ItemType;
use crate::player::PlayerState;

verus! {

/// The abilities the player can have.
#[derive(Debug, Clone, Copy, PartialEq, Eq, Structural)]
pub enum PlayerAbilityDescriptorName {
    Cyclone,
    Dash,
}

/// The kinds of attack the player makes, by weapon and by ability.
#[derive(Debug, Clone, Copy, PartialEq, Eq, Structural)]
pub enum PlayerAttackType {
    Melee,
    Ranged,
    Magic,
    MeleeAbility,
    RangedAbility,
    MagicAbility,
}

/// What an ability can be started with: a held item of one of `item_types`,
/// or an empty hand when `usable_with_nothing` is set.
#[derive(Debug, Clone)]
pub struct UsableWith {
    pub item_types: Vec<ItemType>,
    pub usable_with_nothing: bool,
}

/// The item kinds an ability can be started with.
pub open spec fn ability_item_types(name: PlayerAbilityDescriptorName) -> Seq<ItemType> {
    match name {
        PlayerAbilityDescriptorName::Cyclone => seq![ItemType::MeleeWeapon],
        PlayerAbilityDescriptorName::Dash => seq![
            ItemType::MeleeWeapon,
            ItemType::RangedWeapon,
            ItemType::MagicWeapon,
        ],
    }
}

/// Whether an ability can be started with an empty hand.
pub open spec fn ability_usable_empty_handed(name: PlayerAbilityDescriptorName) -> bool {
    match name {
        PlayerAbilityDescriptorName::Cyclone => false,
        PlayerAbilityDescriptorName::Dash => true,
    }
}

/// Whether `item_types` and `nothing` allow starting with `held` in hand.
pub open spec fn permits(item_types: Seq<ItemType>, nothing: bool, held: Option<ItemType>) -> bool {
    match held {
        Some(t) => item_types.contains(t),
        None => nothing,
    }
}

/// Whether the player in `state` holding `held` may start an ability usable with
/// `item_types` (or an empty hand when `nothing`): only when idle or walking.
pub open spec fn may_start(
    state: PlayerState,
    item_types: Seq<ItemType>,
    nothing: bool,
    held: Option<ItemType>,
) -> bool {
    (state == PlayerState::Idle || state == PlayerState::Walking) && permits(item_types, nothing, held)
}

/// The attack a weapon makes: melee weapons melee attacks and ranged weapons
/// ranged ones; other items make none.
pub open spec fn weapon_attack(t: ItemType) -> Option<PlayerAttackType> {
    match t {
        ItemType::MeleeWeapon => Some(PlayerAttackType::Melee),
        ItemType::RangedWeapon => Some(PlayerAttackType::Ranged),
        _ => None,
    }
}

/// Whether a left click attacks with the held item of kind `t` once it is ready.
pub open spec fn clicks_to_attack(t: ItemType) -> bool {
    t == ItemType::MeleeWeapon || t == ItemType::MagicWeapon
}

/// What a left click does: `None` when the player does not attack, else the
/// attack each shot makes (if any) and the player's state afterwards.
pub open spec fn click_outcome(state: PlayerState, held: Option<ItemType>, ready: bool) -> Option<
    (Option<PlayerAttackType>, PlayerState),
> {
    match held {
        Some(t) => if (state == PlayerState::Idle || state == PlayerState::Walking) && ready
            && clicks_to_attack(t) {
            Some(
                (
                    weapon_attack(t),
                    if t == ItemType::MeleeWeapon {
                        PlayerState::AttackingMelee
                    } else {
                        state
                    },
                ),
            )
        } else {
            None
        },
        None => None,
    }
}

impl UsableWith {
    /// What the ability `name` can be started with.
    pub fn for_ability(name: PlayerAbilityDescriptorName) -> (r: UsableWith)
        ensures
            r.item_types@ == ability_item_types(name),
            r.usable_with_nothing == ability_usable_empty_handed(name),
    {
        match name {
            PlayerAbilityDescriptorName::Cyclone => {
                let r = UsableWith { item_types: vec![ItemType::MeleeWeapon], usable_with_nothing: false };
                assert(r.item_types@ =~= ability_item_types(name));
                r
            },
            PlayerAbilityDescriptorName::Dash => {
                let r = UsableWith {
                    item_types: vec![
                        ItemType::MeleeWeapon,
                        ItemType::RangedWeapon,
                        ItemType::MagicWeapon,
                    ],
                    usable_with_nothing: true,
                };
                assert(r.item_types@ =~= ability_item_types(name));
                r
            },
        }
    }

    /// Whether the ability can be started with `held` in hand.
    pub fn permits(&self, held: Option<ItemType>) -> (r: bool)
        ensures
            r == permits(self.item_types@, self.usable_with_nothing, held),
    {
        match held {
            Some(t) => {
                let mut i: usize = 0;
                while i < self.item_types.len()
                    invariant
                        i <= self.item_types.len(),
                        held == Some(t),
                        forall|j: int| 0 <= j < i ==> self.item_types@[j] != t,
                    decreases self.item_types.len() - i,
                {
                    if self.item_types[i] == t {
                        assert(self.item_types@[i as int] == t);
                        return true;
                    }
                    i = i + 1;
                }
                proof {
                    if self.item_types@.contains(t) {
                        let k = choose|k: int| 0 <= k < self.item_types@.len() && self.item_types@[k] == t;
                        assert(self.item_types@[k] != t);
                    }
                }
                false
            },
            None => self.usable_with_nothing,
        }
    }
}

/// Whether the player in `state` holding `held` starts an ability that is
/// usable with `usable`.
pub fn can_start_ability(state: PlayerState, usable: &UsableWith, held: Option<ItemType>) -> (r: bool)
    ensures
        r == may_start(state, usable.item_types@, usable.usable_with_nothing, held),
{
    (state == PlayerState::Idle || state == PlayerState::Walking) && usable.permits(held)
}

/// The attack that the weapon of kind `t` makes, if any.
pub fn attack_type_for_item(t: ItemType) -> (r: Option<PlayerAttackType>)
    ensures
        r == weapon_attack(t),
{
    match t {
        ItemType::MeleeWeapon => Some(PlayerAttackType::Melee),
        ItemType::RangedWeapon => Some(PlayerAttackType::Ranged),
        _ => None,
    }
}

/// What a left click does for the player in `state` holding `held`, whose
/// item is `ready` (its cooldown has run out): `None` when nothing happens,
/// else the attack each shot makes (none for a magic weapon) and the
/// player's new state (attacking in melee after a melee weapon).
pub fn click_attack(state: PlayerState, held: Option<ItemType>, ready: bool) -> (r: Option<
    (Option<PlayerAttackType>, PlayerState),
>)
    ensures
        r == click_outcome(state, held, ready),
{
    match held {
        Some(t) => {
            let idle = state == PlayerState::Idle || state == PlayerState::Walking;
            let attacks = t == ItemType::MeleeWeapon || t == ItemType::MagicWeapon;
            if idle && ready && attacks {
                let next = if t == ItemType::MeleeWeapon {
                    PlayerState::AttackingMelee
                } else {
                    state
                };
                Some((attack_type_for_item(t), next))
            } else {
                None
            }
        },
        None => None,
    }
}

/// A click attacks only for an idle or walking player holding a ready melee
/// or magic weapon. A melee weapon then always makes a melee attack and leaves
/// the player attacking in melee, whether it was idle or walking; a magic
/// weapon makes no attack and leaves the state as it was; nothing else attacks.
pub proof fn lemma_click_attacks(state: PlayerState, held: Option<ItemType>, ready: bool)
    ensures
        click_outcome(state, held, ready) is Some <==> ((state == PlayerState::Idle || state == PlayerState::Walking)
            && ready && (held == Some(ItemType::MeleeWeapon) || held == Some(ItemType::MagicWeapon))),
        held == Some(ItemType::MeleeWeapon) ==> (click_outcome(state, held, ready) matches Some((a, st))
            ==> a == Some(PlayerAttackType::Melee) && st == PlayerState::AttackingMelee),
        held == Some(ItemType::MagicWeapon) ==> (click_outcome(state, held, ready) matches Some((a, st))
            ==> a is None && st == state),
        click_outcome(PlayerState::Idle, held, ready) is Some ==> click_outcome(PlayerState::Walking, held, ready) is Some
            && (held == Some(ItemType::MeleeWeapon) ==> click_outcome(PlayerState::Idle, held, ready)
                == click_outcome(PlayerState::Walking, held, ready)),
{
}

/// Only a melee weapon makes a melee attack and only a ranged one a ranged
/// attack; no item makes any other kind.
pub proof fn lemma_weapon_attacks(t: ItemType)
    ensures
        weapon_attack(t) == Some(PlayerAttackType::Melee) <==> t == ItemType::MeleeWeapon,
        weapon_attack(t) == Some(PlayerAttackType::Ranged) <==> t == ItemType::RangedWeapon,
        weapon_attack(t) is Some ==> weapon_attack(t) == Some(PlayerAttackType::Melee) || weapon_attack(t) == Some(PlayerAttackType::Ranged),
{
}

/// Cyclone can be started only with a melee weapon in hand; Dash with any
/// weapon or an empty hand, but not with armor, a shield or a bauble.
pub proof fn lemma_ability_items(held: Option<ItemType>)
    ensures
        permits(ability_item_types(PlayerAbilityDescriptorName::Cyclone), ability_usable_empty_handed(
            PlayerAbilityDescriptorName::Cyclone), held) <==> held == Some(ItemType::MeleeWeapon),
        permits(ability_item_types(PlayerAbilityDescriptorName::Dash), ability_usable_empty_handed(
            PlayerAbilityDescriptorName::Dash), held) <==> (held is None || held == Some(ItemType::MeleeWeapon)
            || held == Some(ItemType::RangedWeapon) || held == Some(ItemType::MagicWeapon)),
{
    match held {
        Some(t) => {
            assert(ability_item_types(PlayerAbilityDescriptorName::Cyclone)[0] == ItemType::MeleeWeapon);
            let d = ability_item_types(PlayerAbilityDescriptorName::Dash);
            assert(d[0] == ItemType::MeleeWeapon && d[1] == ItemType::RangedWeapon && d[2] == ItemType::MagicWeapon);
            if d.contains(t) {
                let j = choose|j: int| 0 <= j < d.len() && d[j] == t;
                assert(j == 0 || j == 1 || j == 2);
            }
        },
        None => {},
    }
}

} // verus!
