use xiaofeng::error::PE;
use xiaofeng::json_parsing::{
    attack_type_from_name, entity_plan_for_archetype, same_text, validate_entity_archetype, AggroComponent,
    AttackType, EntityArchetype,
};

fn archetype(tags: &[&str]) -> EntityArchetype {
    EntityArchetype {
        name: "ghost".to_string(),
        basic_tags: tags.iter().map(|t| t.to_string()).collect(),
        has_collision_box: false,
        has_damage_box: false,
        health: None,
        monster_type: "Undead".to_string(),
        has_movement_speed: false,
        range: None,
        aggro_range: None,
        attack_type: "Melee".to_string(),
        attack_pattern: None,
        loot_table: vec![],
        sprite: None,
    }
}

fn ghost() -> EntityArchetype {
    let mut a = archetype(&["aggressive", "attacker", "damageable", "hasCollision", "respectsCollision"]);
    a.health = Some(100);
    a.has_movement_speed = true;
    a.range = Some(47);
    a.aggro_range = Some(1000);
    a.attack_pattern = Some("test".to_string());
    a.has_collision_box = true;
    a.loot_table = vec!["common".to_string()];
    a.sprite = Some("test_sprite".to_string());
    a
}

#[test]
fn attack_types_by_name() {
    assert_eq!(attack_type_from_name("melee"), Some(AttackType::Melee));
    assert_eq!(attack_type_from_name("ranged"), Some(AttackType::Ranged));
    assert_eq!(attack_type_from_name("magic"), Some(AttackType::Magic));
    assert_eq!(attack_type_from_name("Melee"), None);
    assert_eq!(attack_type_from_name(""), None);
    assert!(same_text("abc", "abc"));
    assert!(!same_text("abc", "abd"));
    assert!(!same_text("ab", "abc"));
}

#[test]
fn a_complete_archetype_is_valid() {
    assert!(validate_entity_archetype(&ghost()).is_ok());
    assert!(validate_entity_archetype(&archetype(&[])).is_ok());
    assert!(validate_entity_archetype(&archetype(&["animated"])).is_ok());
}

fn invalid(a: &EntityArchetype) -> bool {
    matches!(validate_entity_archetype(a), Err(e) if matches!(e.error, PE::Invalid(_)))
}

#[test]
fn tags_need_their_parts() {
    let mut a = ghost();
    a.attack_pattern = None;
    assert!(invalid(&a));
    let mut a = ghost();
    a.range = None;
    assert!(invalid(&a));
    let mut a = ghost();
    a.health = None;
    assert!(invalid(&a));
    let mut a = ghost();
    a.aggro_range = None;
    assert!(invalid(&a));
    let mut a = ghost();
    a.has_movement_speed = false;
    assert!(invalid(&a));
    assert!(invalid(&archetype(&["flying"])));
}

#[test]
fn validation_names_the_first_problem() {
    let mut a = archetype(&["flying", "damageable"]);
    a.attack_pattern = Some("p".to_string());
    let e = validate_entity_archetype(&a).unwrap_err();
    assert!(matches!(e.error, PE::Invalid(ref d) if d.desc == "Entity archetype: ghost has an unrecognized tag: flying"));
    let a = archetype(&["animated", "damageable"]);
    let e = validate_entity_archetype(&a).unwrap_err();
    assert!(matches!(e.error, PE::Invalid(ref d) if d.desc == "Entity archetype: ghost has the damageable tag but no health"));
    let e = validate_entity_archetype(&archetype(&["hasCollision"])).unwrap_err();
    assert!(matches!(e.error, PE::Invalid(ref d) if d.desc == "Entity archetype ghost has collision but doesn't respect collision, this causes very uncertain behavior and is not recommended"));
    let mut a = archetype(&[]);
    a.range = Some(3);
    a.has_movement_speed = true;
    let e = validate_entity_archetype(&a).unwrap_err();
    assert!(matches!(e.error, PE::Invalid(ref d) if d.desc == "Entity archetype: ghost has a movement speed but no aggressive tag"));
}

#[test]
fn collision_must_be_respected() {
    assert!(invalid(&archetype(&["hasCollision"])));
    assert!(validate_entity_archetype(&archetype(&["hasCollision", "respectsCollision"])).is_ok());
    assert!(validate_entity_archetype(&archetype(&["respectsCollision"])).is_ok());
}

#[test]
fn parts_need_their_tags() {
    let mut a = archetype(&[]);
    a.health = Some(5);
    assert!(invalid(&a));
    let mut a = archetype(&[]);
    a.aggro_range = Some(5);
    assert!(invalid(&a));
    let mut a = archetype(&[]);
    a.range = Some(5);
    assert!(invalid(&a));
    let mut a = archetype(&[]);
    a.attack_pattern = Some("p".to_string());
    assert!(invalid(&a));
    let mut a = archetype(&[]);
    a.has_collision_box = true;
    assert!(invalid(&a));
    let mut a = archetype(&[]);
    a.has_damage_box = true;
    assert!(invalid(&a));
    let mut a = archetype(&[]);
    a.has_movement_speed = true;
    assert!(invalid(&a));
}

#[test]
fn plan_for_a_valid_archetype() {
    let p = entity_plan_for_archetype(&ghost(), Some(0)).unwrap();
    assert_eq!(p.attack, Some(("test".to_string(), 47)));
    assert_eq!(p.collision, Some(true));
    assert_eq!(p.sprite, Some(0));
    assert_eq!(p.aggro, Some(AggroComponent { aggroed: false, aggro_range: 1000, aggro_through_walls: true }));
    assert!(p.pathfinding);
    assert_eq!(p.damageable, Some(100));
    assert_eq!(p.loot_tables, Some(vec!["common".to_string()]));
    let bare = entity_plan_for_archetype(&archetype(&[]), None).unwrap();
    assert!(bare.attack.is_none() && bare.collision.is_none() && bare.sprite.is_none());
    assert!(bare.aggro.is_none() && !bare.pathfinding && bare.damageable.is_none() && bare.loot_tables.is_none());
}

#[test]
fn plan_fails_without_what_tags_need() {
    let e = entity_plan_for_archetype(&ghost(), None).unwrap_err();
    assert!(matches!(e.error, PE::Invalid(_)));
    let mut a = ghost();
    a.range = None;
    assert!(entity_plan_for_archetype(&a, Some(0)).is_err());
    let mut a = ghost();
    a.health = None;
    assert!(entity_plan_for_archetype(&a, Some(0)).is_err());
}
