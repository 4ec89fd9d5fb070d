use xiaofeng::error::PE;
use xiaofeng::starting_level_generator::{room_spawns, room_spawns_with, SpawnOption};
use xiaofeng::terrain::{match_terrain_tags, Terrain, TerrainTags};
use xiaofeng::world::World;

fn option(name: &str, points: usize) -> SpawnOption {
    SpawnOption { archetype: name.to_string(), points }
}

#[test]
fn terrain_tags_by_name() {
    let tags = match_terrain_tags(&vec!["blocksMovement".to_string(), "blocksMovement".to_string()]).unwrap();
    assert_eq!(tags, vec![TerrainTags::BlocksMovement, TerrainTags::BlocksMovement]);
    assert!(match_terrain_tags(&vec![]).unwrap().is_empty());
    let e = match_terrain_tags(&vec!["blocksMovement".to_string(), "lava".to_string()]).unwrap_err();
    assert!(matches!(e.error, PE::Invalid(_)));
    assert!(matches!(e.error, PE::Invalid(ref d) if d.desc == "Found unknown terrain tag: lava"));
}

#[test]
fn a_block_of_terrain_is_filled_column_by_column() {
    let mut w = World::new();
    w.fill_terrain(2, 3, 2, 3, Some(9), "rock", "stone".to_string()).unwrap();
    let corners: Vec<(usize, usize)> = (0..6).map(|id| {
        let t = w.get_terrain(id).unwrap();
        (t.x, t.y)
    }).collect();
    assert_eq!(corners, vec![(64, 96), (64, 128), (64, 160), (96, 96), (96, 128), (96, 160)]);
    for id in 0..6 {
        assert_eq!(w.get_terrain_sprite(id), Some(9));
        assert_eq!(w.get_terrain_archetype(id).unwrap(), "stone");
    }
    assert!(w.get_terrain(6).is_none());
    assert_eq!(w.get_chunk(0).unwrap().terrain_ids, vec![0, 1, 2, 3, 4, 5]);
}

#[test]
fn a_block_without_its_sprite_stops_after_one_tile() {
    let mut w = World::new();
    let e = w.fill_terrain(1, 1, 3, 3, None, "rock", "stone".to_string()).unwrap_err();
    assert!(matches!(e.error, PE::Invalid(ref d) if d.desc == "Could not find sprite: rock while generating world from json data"));
    assert_eq!(*w.get_terrain(0).unwrap(), Terrain { element_id: 0, x: 32, y: 32 });
    assert!(w.get_terrain(1).is_none());
    assert!(w.get_terrain_sprite(0).is_none());
    // an empty block needs no sprite
    w.fill_terrain(1, 1, 0, 3, None, "rock", "stone".to_string()).unwrap();
    assert!(w.get_terrain(1).is_none());
}

#[test]
fn room_spawns_follow_the_draws() {
    let options = vec![option("rat", 2), option("ogre", 20), option("bat", 1), option("wolf", 3)];
    // with 10 points, the ogre costs too much; rat, bat and wolf are eligible, and draws pick among rat and bat,
    // and among the first three cells
    let draws = vec![(0, 1), (1, 0), (0, 2), (1, 1), (0, 0), (1, 0), (0, 0), (0, 0), (0, 0), (0, 0)];
    let spawns = room_spawns_with(&options, 4, 10, &draws);
    assert_eq!(spawns, vec![(0, 1), (2, 0), (0, 2), (2, 1), (0, 0), (2, 0), (0, 0)]);
    let spent: usize = spawns.iter().map(|(o, _)| options[*o].points).sum();
    assert!(spent >= 10);
}

#[test]
fn a_single_option_and_cell_need_no_draws() {
    let options = vec![option("rat", 2)];
    let spawns = room_spawns_with(&options, 1, 5, &vec![(7, 7); 5]);
    assert_eq!(spawns, vec![(0, 0), (0, 0), (0, 0)]);
}

#[test]
fn rooms_without_room_spawn_nothing() {
    let options = vec![option("ogre", 20)];
    assert!(room_spawns(&options, 3, 10).is_empty());
    assert!(room_spawns(&vec![option("rat", 1)], 0, 10).is_empty());
    assert!(room_spawns(&vec![option("rat", 1)], 3, 0).is_empty());
}

#[test]
fn random_room_spawns_spend_the_points() {
    let options = vec![option("rat", 2), option("bat", 1), option("wolf", 3)];
    let mut picked = [false; 2];
    for _ in 0..40 {
        let spawns = room_spawns(&options, 5, 12);
        let spent: usize = spawns.iter().map(|(o, _)| options[*o].points).sum();
        assert!(spent >= 12);
        for (o, cell) in spawns {
            // the last eligible option and the last cell are never drawn
            assert!(o == 0 || o == 1);
            picked[o] = true;
            assert!(cell < 4);
        }
    }
    assert!(picked[0] && picked[1]);
}

#[test]
fn large_totals_spawn_while_points_fit() {
    let total = usize::MAX / 2 + 10;
    let options = vec![option("goblin", 3), option("rat", 1)];
    let spawns = room_spawns_with(&options, 1, total, &vec![(0, 0); 3]);
    assert_eq!(spawns, vec![(0, 0), (0, 0), (0, 0)]);
}
