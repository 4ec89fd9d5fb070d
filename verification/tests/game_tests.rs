use xiaofeng::abilities::{
    attack_type_for_item, can_start_ability, click_attack, PlayerAbilityDescriptorName, PlayerAttackType, UsableWith,
};
use xiaofeng::game::{ClickRoute, FrameWork, GameState, KeyRoute};
use xiaofeng::item::ItemType;
use xiaofeng::pathfinding::{plan_chase_step, ChaseDistance, ChaseStep, EntityDirectionOptions};
use xiaofeng::player::PlayerState;

#[test]
fn start_screen_is_left_by_a_click_or_a_key() {
    assert_eq!(GameState::start.on_click(false), (GameState::play, ClickRoute::Begin));
    assert_eq!(GameState::start.on_click(true), (GameState::play, ClickRoute::Begin));
    assert_eq!(GameState::start.on_key("x", true), (GameState::play, KeyRoute::Begin));
    assert_eq!(GameState::start.on_key("e", false), (GameState::play, KeyRoute::Begin));
}

#[test]
fn clicks_go_to_the_screen_shown() {
    assert_eq!(GameState::play.on_click(true), (GameState::play, ClickRoute::World));
    assert_eq!(GameState::play.on_click(false), (GameState::play, ClickRoute::Record));
    assert_eq!(GameState::inventory.on_click(true), (GameState::inventory, ClickRoute::Inventory));
    assert_eq!(GameState::death.on_click(true), (GameState::death, ClickRoute::Record));
}

#[test]
fn inventory_key_toggles_the_inventory() {
    let (s, r) = GameState::play.on_key("e", true);
    assert_eq!((s, r), (GameState::inventory, KeyRoute::ShowInventory));
    let (s, r) = s.on_key("e", true);
    assert_eq!((s, r), (GameState::play, KeyRoute::HideInventory));
    assert_eq!(GameState::play.on_key("e", false), (GameState::play, KeyRoute::Record));
    assert_eq!(GameState::death.on_key("e", true), (GameState::death, KeyRoute::Record));
}

#[test]
fn other_keys_go_to_the_screen_shown() {
    assert_eq!(GameState::play.on_key("1", true), (GameState::play, KeyRoute::World));
    assert_eq!(GameState::inventory.on_key("ee", true), (GameState::inventory, KeyRoute::Inventory));
    assert_eq!(GameState::death.on_key("w", true), (GameState::death, KeyRoute::Record));
}

#[test]
fn frames_update_by_screen() {
    assert_eq!(GameState::play.frame(), FrameWork::World);
    assert_eq!(GameState::inventory.frame(), FrameWork::InventoryOnly);
    assert_eq!(GameState::start.frame(), FrameWork::Nothing);
    assert_eq!(GameState::death.frame(), FrameWork::Nothing);
}

#[test]
fn abilities_are_usable_with_their_items() {
    let cyclone = UsableWith::for_ability(PlayerAbilityDescriptorName::Cyclone);
    assert_eq!(cyclone.item_types, vec![ItemType::MeleeWeapon]);
    assert!(!cyclone.usable_with_nothing);
    assert!(cyclone.permits(Some(ItemType::MeleeWeapon)));
    assert!(!cyclone.permits(Some(ItemType::RangedWeapon)));
    assert!(!cyclone.permits(None));
    let dash = UsableWith::for_ability(PlayerAbilityDescriptorName::Dash);
    assert!(dash.permits(None));
    assert!(dash.permits(Some(ItemType::MagicWeapon)));
    assert!(!dash.permits(Some(ItemType::Shield)));
}

#[test]
fn abilities_start_only_when_idle_or_walking() {
    let dash = UsableWith::for_ability(PlayerAbilityDescriptorName::Dash);
    assert!(can_start_ability(PlayerState::Idle, &dash, None));
    assert!(can_start_ability(PlayerState::Walking, &dash, Some(ItemType::RangedWeapon)));
    assert!(!can_start_ability(PlayerState::AttackingMelee, &dash, None));
    assert!(!can_start_ability(PlayerState::ChargingAbility, &dash, None));
}

#[test]
fn weapons_make_their_attacks() {
    assert_eq!(attack_type_for_item(ItemType::MeleeWeapon), Some(PlayerAttackType::Melee));
    assert_eq!(attack_type_for_item(ItemType::RangedWeapon), Some(PlayerAttackType::Ranged));
    assert_eq!(attack_type_for_item(ItemType::MagicWeapon), None);
    assert_eq!(attack_type_for_item(ItemType::HelmetArmor), None);
}

#[test]
fn clicking_attacks_with_a_ready_weapon() {
    assert_eq!(
        click_attack(PlayerState::Idle, Some(ItemType::MeleeWeapon), true),
        Some((Some(PlayerAttackType::Melee), PlayerState::AttackingMelee))
    );
    assert_eq!(
        click_attack(PlayerState::Walking, Some(ItemType::MagicWeapon), true),
        Some((None, PlayerState::Walking))
    );
    assert_eq!(click_attack(PlayerState::Idle, Some(ItemType::RangedWeapon), true), None);
    assert_eq!(click_attack(PlayerState::Idle, Some(ItemType::MeleeWeapon), false), None);
    assert_eq!(click_attack(PlayerState::AttackingMelee, Some(ItemType::MeleeWeapon), true), None);
    assert_eq!(click_attack(PlayerState::Idle, None, true), None);
}

#[test]
fn chasing_entities_search_paths_only_when_walls_stop_them() {
    let up = EntityDirectionOptions::Up;
    assert_eq!(plan_chase_step(ChaseDistance::AtPlayer, true, true, up), ChaseStep::Stay);
    assert_eq!(plan_chase_step(ChaseDistance::Far, true, true, up), ChaseStep::ByBlock);
    assert_eq!(plan_chase_step(ChaseDistance::Far, false, true, up), ChaseStep::Keep(up));
    assert_eq!(plan_chase_step(ChaseDistance::Far, false, false, up), ChaseStep::Straight);
    assert_eq!(plan_chase_step(ChaseDistance::Mid, false, true, up), ChaseStep::Fine);
    assert_eq!(plan_chase_step(ChaseDistance::Mid, true, false, up), ChaseStep::Straight);
    assert_eq!(plan_chase_step(ChaseDistance::Near, true, true, up), ChaseStep::Straight);
}
