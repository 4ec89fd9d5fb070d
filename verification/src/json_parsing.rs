//! Game data read from JSON: entity archetypes, their validation, and what
//! an archetype asks of the entities made from it.
use vstd::prelude::*;
use vstd::string::*;
use crate::error::{caused_as, texts, ErrorKind, PError};

verus! {

/// How an entity attack reaches its target.
#[derive(Debug, Clone, Copy, PartialEq, Eq, Structural)]
pub enum AttackType {
    Melee,
    Ranged,
    Magic,
}

/// The kinds of monster.
#[derive(Debug, Clone, Copy, PartialEq, Eq, Structural)]
pub enum MonsterType {
    Undead,
    Uruk,
    Parasite,
    Beast,
    Demon,
    Dragon,
    Item,
    Ambient,
}

/// Whether `a` and `b` hold the same characters.
pub fn same_text(a: &str, b: &str) -> (r: bool)
    ensures
        r == (a@ == b@),
{
    let n = a.unicode_len();
    let m = b.unicode_len();
    if n != m {
        return false;
    }
    for i in 0..n
        invariant
            n == a@.len(),
            m == b@.len(),
            n == m,
            forall|j: int| 0 <= j < i ==> a@[j] == b@[j],
    {
        if a.get_char(i) != b.get_char(i) {
            return false;
        }
    }
    assert(a@ =~= b@);
    true
}

/// The attack type that a JSON file names `name`.
pub open spec fn attack_type_named(name: Seq<char>) -> Option<AttackType> {
    if name == "melee"@ {
        Some(AttackType::Melee)
    } else if name == "ranged"@ {
        Some(AttackType::Ranged)
    } else if name == "magic"@ {
        Some(AttackType::Magic)
    } else {
        None
    }
}

/// The attack type named `name` (`melee`, `ranged` or `magic`), if it is one.
pub fn attack_type_from_name(name: &str) -> (r: Option<AttackType>)
    ensures
        r == attack_type_named(name@),
{
    if same_text(name, "melee") {
        Some(AttackType::Melee)
    } else if same_text(name, "ranged") {
        Some(AttackType::Ranged)
    } else if same_text(name, "magic") {
        Some(AttackType::Magic)
    } else {
        None
    }
}

/// What the engine reads of an entity archetype: its name and tags, which of
/// its optional parts it has (boxes and movement speed are given as
/// presence only), and the values of those it uses as whole numbers or names.
#[derive(Debug, Clone)]
pub struct EntityArchetype {
    pub name: String,
    pub basic_tags: Vec<String>,
    pub has_collision_box: bool,
    pub has_damage_box: bool,
    pub health: Option<usize>,
    pub monster_type: String,
    pub has_movement_speed: bool,
    pub range: Option<usize>,
    pub aggro_range: Option<usize>,
    pub attack_type: String,
    pub attack_pattern: Option<String>,
    pub loot_table: Vec<String>,
    pub sprite: Option<String>,
}

/// Whether the archetype `a` has the tag `t`.
pub open spec fn has_tag(a: EntityArchetype, t: Seq<char>) -> bool {
    exists|i: int| 0 <= i < a.basic_tags@.len() && #[trigger] a.basic_tags@[i]@ == t
}

/// Whether the tag `t` of the archetype `a` is known and has what it needs:
/// an attacker needs an attack pattern and a range, a damageable entity
/// health, an aggressive one an aggro range and a movement speed.
pub open spec fn tag_ok(a: EntityArchetype, t: Seq<char>) -> bool {
    if t == "attacker"@ {
        a.attack_pattern is Some && a.range is Some
    } else if t == "damageable"@ {
        a.health is Some
    } else if t == "aggressive"@ {
        a.aggro_range is Some && a.has_movement_speed
    } else {
        t == "respectsCollision"@ || t == "hasCollision"@ || t == "animated"@
    }
}

/// Whether the archetype `a` is valid: every tag is known and has what it
/// needs; an entity with collision respects collision; and each optional
/// part comes with the tag that uses it.
pub open spec fn archetype_valid(a: EntityArchetype) -> bool {
    &&& forall|i: int| 0 <= i < a.basic_tags@.len() ==> tag_ok(a, #[trigger] a.basic_tags@[i]@)
    &&& (has_tag(a, "hasCollision"@) ==> has_tag(a, "respectsCollision"@))
    &&& (a.attack_pattern is Some ==> has_tag(a, "attacker"@))
    &&& (a.health is Some ==> has_tag(a, "damageable"@))
    &&& (a.aggro_range is Some ==> has_tag(a, "aggressive"@))
    &&& (a.has_collision_box ==> has_tag(a, "hasCollision"@))
    &&& (a.has_damage_box ==> has_tag(a, "damageable"@))
    &&& (a.has_movement_speed ==> has_tag(a, "aggressive"@))
    &&& (a.range is Some ==> has_tag(a, "attacker"@))
}

/// What is wrong with the tag `t` of the archetype `a`, if anything, in the
/// words of the validation error.
pub open spec fn tag_problem(a: EntityArchetype, t: Seq<char>) -> Option<Seq<char>> {
    if t == "attacker"@ {
        if a.attack_pattern is None {
            Some(" has the attacker tag but no attack pattern"@)
        } else if a.range is None {
            Some(" has the attacker tag but no range"@)
        } else {
            None
        }
    } else if t == "damageable"@ {
        if a.health is None {
            Some(" has the damageable tag but no health"@)
        } else {
            None
        }
    } else if t == "aggressive"@ {
        if a.aggro_range is None {
            Some(" has the aggressive tag but no aggro range"@)
        } else if !a.has_movement_speed {
            Some(" has the aggressive tag but no movement speed"@)
        } else {
            None
        }
    } else if t == "respectsCollision"@ || t == "hasCollision"@ || t == "animated"@ {
        None
    } else {
        Some(" has an unrecognized tag: "@ + t)
    }
}

/// The problem with the first tag of `a`, from position `i` on, that has one.
pub open spec fn first_tag_problem(a: EntityArchetype, i: int) -> Option<Seq<char>>
    decreases a.basic_tags@.len() - i,
{
    if i < 0 || i >= a.basic_tags@.len() {
        None
    } else {
        match tag_problem(a, a.basic_tags@[i]@) {
            Some(p) => Some(p),
            None => first_tag_problem(a, i + 1),
        }
    }
}

/// The description of the first problem that validation finds with `a`:
/// the first tag with a problem, then, in this order, collision without
/// respecting collision, and each optional part without the tag that uses it.
pub open spec fn archetype_problem(a: EntityArchetype) -> Option<Seq<char>> {
    let lead = "Entity archetype: "@ + a.name@;
    match first_tag_problem(a, 0) {
        Some(p) => Some(lead + p),
        None => if has_tag(a, "hasCollision"@) && !has_tag(a, "respectsCollision"@) {
            Some("Entity archetype "@ + a.name@
                + " has collision but doesn't respect collision, this causes very uncertain behavior and is not recommended"@)
        } else if a.attack_pattern is Some && !has_tag(a, "attacker"@) {
            Some(lead + " has an attack pattern but no attacker tag"@)
        } else if a.health is Some && !has_tag(a, "damageable"@) {
            Some(lead + " has health but no damageable tag"@)
        } else if a.aggro_range is Some && !has_tag(a, "aggressive"@) {
            Some(lead + " has an aggro range but no aggressive tag"@)
        } else if a.has_collision_box && !has_tag(a, "hasCollision"@) {
            Some(lead + " has a collision box but no hasCollision tag"@)
        } else if a.has_damage_box && !has_tag(a, "damageable"@) {
            Some(lead + " has a damage box but no damageable tag"@)
        } else if a.has_movement_speed && !has_tag(a, "aggressive"@) {
            Some(lead + " has a movement speed but no aggressive tag"@)
        } else if a.range is Some && !has_tag(a, "attacker"@) {
            Some(lead + " has a range but no attacker tag"@)
        } else {
            None
        },
    }
}

/// Whether one of `tags` is `t`.
fn tags_contain(tags: &Vec<String>, t: &str) -> (r: bool)
    ensures
        r == exists|i: int| 0 <= i < tags@.len() && #[trigger] tags@[i]@ == t@,
{
    let n = tags.len();
    for i in 0..n
        invariant
            n == tags@.len(),
            forall|j: int| 0 <= j < i ==> #[trigger] tags@[j]@ != t@,
    {
        if same_text(tags[i].as_str(), t) {
            return true;
        }
    }
    false
}

/// An `Invalid` error about the archetype `name`: `before`, the name, then `after`.
fn archetype_error(before: &str, name: &String, after: &str) -> (r: PError)
    ensures
        caused_as(r, ErrorKind::Invalid, before@ + name@ + after@, "JSON_parser::validate_entity_archetype"@, seq![]),
{
    let mut d = before.to_owned();
    d.append(name.as_str());
    d.append(after);
    let e = PError::raised(ErrorKind::Invalid, d, "JSON_parser::validate_entity_archetype");
    assert(texts(e.trace@) =~= seq![]);
    e
}

/// Checks the archetype `archetype` (see [`archetype_valid`]); fails with
/// `Invalid`, naming the first problem found, when it is not valid.
#[verifier::loop_isolation(false)]
pub fn validate_entity_archetype(archetype: &EntityArchetype) -> (r: Result<(), PError>)
    ensures
        r is Ok <==> archetype_valid(*archetype),
        r matches Err(e) ==> archetype_problem(*archetype) matches Some(d)
            && caused_as(e, ErrorKind::Invalid, d, "JSON_parser::validate_entity_archetype"@, seq![]),
{
    proof {
        reveal_strlit("attacker");
        reveal_strlit("damageable");
        reveal_strlit("aggressive");
        reveal_strlit("respectsCollision");
        reveal_strlit("hasCollision");
        reveal_strlit("animated");
    }
    let name = &archetype.name;
    let n = archetype.basic_tags.len();
    for i in 0..n
        invariant
            n == archetype.basic_tags@.len(),
            forall|j: int| 0 <= j < i ==> tag_ok(*archetype, #[trigger] archetype.basic_tags@[j]@),
            first_tag_problem(*archetype, 0) == first_tag_problem(*archetype, i as int),
    {
        let tag = archetype.basic_tags[i].as_str();
        proof {
            reveal_with_fuel(first_tag_problem, 2);
        }
        if same_text(tag, "attacker") {
            if archetype.attack_pattern.is_none() {
                return Err(archetype_error("Entity archetype: ", name, " has the attacker tag but no attack pattern"));
            }
            if archetype.range.is_none() {
                return Err(archetype_error("Entity archetype: ", name, " has the attacker tag but no range"));
            }
        } else if same_text(tag, "damageable") {
            if archetype.health.is_none() {
                return Err(archetype_error("Entity archetype: ", name, " has the damageable tag but no health"));
            }
        } else if same_text(tag, "aggressive") {
            if archetype.aggro_range.is_none() {
                return Err(archetype_error("Entity archetype: ", name, " has the aggressive tag but no aggro range"));
            }
            if !archetype.has_movement_speed {
                return Err(archetype_error("Entity archetype: ", name, " has the aggressive tag but no movement speed"));
            }
        } else if same_text(tag, "respectsCollision") || same_text(tag, "hasCollision") || same_text(tag, "animated") {
        } else {
            let mut after = " has an unrecognized tag: ".to_owned();
            after.append(tag);
            assert("Entity archetype: "@ + name@ + after@ =~= "Entity archetype: "@ + name@ + (" has an unrecognized tag: "@ + tag@));
            return Err(archetype_error("Entity archetype: ", name, after.as_str()));
        }
    }
    let has_collision = tags_contain(&archetype.basic_tags, "hasCollision");
    let respects_collision = tags_contain(&archetype.basic_tags, "respectsCollision");
    if has_collision && !respects_collision {
        return Err(archetype_error("Entity archetype ", name,
            " has collision but doesn't respect collision, this causes very uncertain behavior and is not recommended"));
    }
    let tags = &archetype.basic_tags;
    if archetype.attack_pattern.is_some() && !tags_contain(tags, "attacker") {
        return Err(archetype_error("Entity archetype: ", name, " has an attack pattern but no attacker tag"));
    }
    if archetype.health.is_some() && !tags_contain(tags, "damageable") {
        return Err(archetype_error("Entity archetype: ", name, " has health but no damageable tag"));
    }
    if archetype.aggro_range.is_some() && !tags_contain(tags, "aggressive") {
        return Err(archetype_error("Entity archetype: ", name, " has an aggro range but no aggressive tag"));
    }
    if archetype.has_collision_box && !tags_contain(tags, "hasCollision") {
        return Err(archetype_error("Entity archetype: ", name, " has a collision box but no hasCollision tag"));
    }
    if archetype.has_damage_box && !tags_contain(tags, "damageable") {
        return Err(archetype_error("Entity archetype: ", name, " has a damage box but no damageable tag"));
    }
    if archetype.has_movement_speed && !tags_contain(tags, "aggressive") {
        return Err(archetype_error("Entity archetype: ", name, " has a movement speed but no aggressive tag"));
    }
    if archetype.range.is_some() && !tags_contain(tags, "attacker") {
        return Err(archetype_error("Entity archetype: ", name, " has a range but no attacker tag"));
    }
    Ok(())
}

} // verus!

verus! {

/// An entity's state of aggression towards the player.
#[derive(Debug, Clone, Copy, PartialEq, Eq, Structural)]
pub struct AggroComponent {
    pub aggroed: bool,
    pub aggro_range: usize,
    pub aggro_through_walls: bool,
}

/// The components that an entity made from an archetype gets: an attack
/// component with its pattern and range; a collision component and whether
/// it respects collision; its sprite; an aggro component; a pathfinding
/// component; a damageable component with its maximum health; and the loot
/// tables it drops from. The archetype's boxes and movement speed, which are
/// not whole numbers, are taken from the archetype by whoever builds them.
#[derive(Debug, Clone)]
pub struct EntityPlan {
    pub attack: Option<(String, usize)>,
    pub collision: Option<bool>,
    pub sprite: Option<usize>,
    pub aggro: Option<AggroComponent>,
    pub pathfinding: bool,
    pub damageable: Option<usize>,
    pub loot_tables: Option<Vec<String>>,
}

/// Whether the archetype about to be built into an entity lacks something
/// that its tags or its sprite name need: an attacker its attack pattern or
/// range, an entity with a sprite name a sprite of that name (`sprite_id`),
/// an aggressive one its aggro range or movement speed, a damageable one its
/// health.
pub open spec fn plan_fails(a: EntityArchetype, sprite_id: Option<usize>) -> bool {
    ||| (has_tag(a, "attacker"@) && (a.attack_pattern is None || a.range is None))
    ||| (a.sprite is Some && sprite_id is None)
    ||| (has_tag(a, "aggressive"@) && (a.aggro_range is None || !a.has_movement_speed))
    ||| (has_tag(a, "damageable"@) && a.health is None)
}

/// The description of the first thing that the archetype `a` about to be
/// built into an entity lacks (see [`plan_fails`]), in this order: an
/// attacker's attack pattern and range, the sprite it names, an aggressive
/// one's aggro range and movement speed, a damageable one's health.
pub open spec fn plan_problem(a: EntityArchetype, sprite_id: Option<usize>) -> Option<Seq<char>> {
    let lead = "entity archetype "@ + a.name@;
    if has_tag(a, "attacker"@) && a.attack_pattern is None {
        Some(lead + " has attacker tag but no attack pattern"@)
    } else if has_tag(a, "attacker"@) && a.range is None {
        Some(lead + " has attacker tag but no range"@)
    } else if a.sprite is Some && sprite_id is None {
        Some(lead + " refers to sprite "@ + a.sprite->0@ + " but that sprite doesn't exist"@)
    } else if has_tag(a, "aggressive"@) && a.aggro_range is None {
        Some(lead + " has aggressive tag but no aggro range"@)
    } else if has_tag(a, "aggressive"@) && !a.has_movement_speed {
        Some(lead + " has aggressive tag but no movement speed, give it a movement speed of 0 if you don't want it to move"@)
    } else if has_tag(a, "damageable"@) && a.health is None {
        Some(lead + " has damageable tag but no max health"@)
    } else {
        None
    }
}

/// The components that an entity made from the archetype `archetype` gets
/// (see [`EntityPlan`]); `sprite_id` is the id of the sprite that the
/// archetype names, if it names one that exists. Fails with `Invalid` when
/// the archetype lacks what its tags or sprite name need (see [`plan_fails`]).
pub fn entity_plan_for_archetype(archetype: &EntityArchetype, sprite_id: Option<usize>) -> (r: Result<EntityPlan, PError>)
    ensures
        r is Err <==> plan_fails(*archetype, sprite_id),
        r matches Err(e) ==> plan_problem(*archetype, sprite_id) matches Some(d)
            && caused_as(e, ErrorKind::Invalid, d, "World::create_entity_with_archetype"@, seq![]),
        r matches Ok(p) ==> {
            &&& (p.attack is Some <==> has_tag(*archetype, "attacker"@))
            &&& (p.attack matches Some((pat, range)) ==> archetype.attack_pattern == Some(pat) && archetype.range == Some(range))
            &&& p.collision == if has_tag(*archetype, "hasCollision"@) {
                    Some(has_tag(*archetype, "respectsCollision"@))
                } else {
                    None
                }
            &&& p.sprite == if archetype.sprite is Some { sprite_id } else { None }
            &&& p.aggro == if has_tag(*archetype, "aggressive"@) {
                    Some(AggroComponent {
                        aggroed: false,
                        aggro_through_walls: has_tag(*archetype, "respectsCollision"@),
                        aggro_range: archetype.aggro_range->0,
                    })
                } else {
                    None
                }
            &&& p.pathfinding == has_tag(*archetype, "aggressive"@)
            &&& p.damageable == if has_tag(*archetype, "damageable"@) { archetype.health } else { None }
            &&& (p.loot_tables is Some <==> archetype.loot_table@.len() > 0)
            &&& (p.loot_tables matches Some(t) ==> t@ == archetype.loot_table@)
        },
{
    let tags = &archetype.basic_tags;
    let respects_collision = tags_contain(tags, "respectsCollision");
    let has_collision = tags_contain(tags, "hasCollision");
    let aggressive = tags_contain(tags, "aggressive");
    let damageable = tags_contain(tags, "damageable");
    let attacker = tags_contain(tags, "attacker");
    let name = &archetype.name;
    let attack = if attacker {
        let pattern = match &archetype.attack_pattern {
            Some(p) => p.clone(),
            None => {
                return Err(plan_error("entity archetype ", name, " has attacker tag but no attack pattern"));
            },
        };
        let range = match archetype.range {
            Some(r) => r,
            None => {
                return Err(plan_error("entity archetype ", name, " has attacker tag but no range"));
            },
        };
        Some((pattern, range))
    } else {
        None
    };
    let collision = if has_collision { Some(respects_collision) } else { None };
    let sprite = match &archetype.sprite {
        Some(sprite_name) => match sprite_id {
            Some(id) => Some(id),
            None => {
                let mut after = " refers to sprite ".to_owned();
                after.append(sprite_name.as_str());
                after.append(" but that sprite doesn't exist");
                assert("entity archetype "@ + name@ + after@ =~= "entity archetype "@ + name@ + " refers to sprite "@
                    + sprite_name@ + " but that sprite doesn't exist"@);
                return Err(plan_error("entity archetype ", name, after.as_str()));
            },
        },
        None => None,
    };
    let aggro = if aggressive {
        let range = match archetype.aggro_range {
            Some(r) => r,
            None => {
                return Err(plan_error("entity archetype ", name, " has aggressive tag but no aggro range"));
            },
        };
        if !archetype.has_movement_speed {
            return Err(plan_error("entity archetype ", name,
                " has aggressive tag but no movement speed, give it a movement speed of 0 if you don't want it to move"));
        }
        Some(AggroComponent { aggroed: false, aggro_through_walls: respects_collision, aggro_range: range })
    } else {
        None
    };
    let health = if damageable {
        match archetype.health {
            Some(h) => Some(h),
            None => {
                return Err(plan_error("entity archetype ", name, " has damageable tag but no max health"));
            },
        }
    } else {
        None
    };
    let loot_tables = if archetype.loot_table.len() > 0 { Some(archetype.loot_table.clone()) } else { None };
    Ok(EntityPlan { attack, collision, sprite, aggro, pathfinding: aggressive, damageable: health, loot_tables })
}

/// An `Invalid` error about the archetype `name`: `before`, the name, then `after`.
fn plan_error(before: &str, name: &String, after: &str) -> (r: PError)
    ensures
        caused_as(r, ErrorKind::Invalid, before@ + name@ + after@, "World::create_entity_with_archetype"@, seq![]),
{
    let mut d = before.to_owned();
    d.append(name.as_str());
    d.append(after);
    let e = PError::raised(ErrorKind::Invalid, d, "World::create_entity_with_archetype");
    assert(texts(e.trace@) =~= seq![]);
    e
}

} // verus!

verus! {

/// An archetype that passes validation can always be built into an entity,
/// provided the sprite it names exists: validation already demands what the
/// builder needs of each tag.
pub proof fn lemma_valid_archetype_builds(a: EntityArchetype, sprite_id: Option<usize>)
    requires
        archetype_valid(a),
        a.sprite is Some ==> sprite_id is Some,
    ensures
        !plan_fails(a, sprite_id),
{
    reveal_strlit("attacker");
    reveal_strlit("damageable");
    reveal_strlit("aggressive");
    if has_tag(a, "attacker"@) {
        let i = choose|i: int| 0 <= i < a.basic_tags@.len() && #[trigger] a.basic_tags@[i]@ == "attacker"@;
        assert(tag_ok(a, a.basic_tags@[i]@));
        assert(tag_ok(a, "attacker"@));
    }
    if has_tag(a, "aggressive"@) {
        let i = choose|i: int| 0 <= i < a.basic_tags@.len() && #[trigger] a.basic_tags@[i]@ == "aggressive"@;
        assert(tag_ok(a, a.basic_tags@[i]@));
        assert("aggressive"@.len() != "attacker"@.len());
        assert("aggressive"@[0] != "damageable"@[0]);
        assert(tag_ok(a, "aggressive"@));
    }
    if has_tag(a, "damageable"@) {
        let i = choose|i: int| 0 <= i < a.basic_tags@.len() && #[trigger] a.basic_tags@[i]@ == "damageable"@;
        assert(tag_ok(a, a.basic_tags@[i]@));
        assert("damageable"@.len() != "attacker"@.len());
        assert(tag_ok(a, "damageable"@));
    }
}

} // verus!
