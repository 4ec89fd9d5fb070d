use xiaofeng::error::PE;
use xiaofeng::terrain::{Terrain, TerrainTags};
use xiaofeng::world::{EntityBoxes, World};

#[test]
fn coordinates_map_to_chunks_of_1024() {
    assert_eq!(World::coord_to_chunk_coord(0), 0);
    assert_eq!(World::coord_to_chunk_coord(1023), 0);
    assert_eq!(World::coord_to_chunk_coord(1024), 1);
    assert_eq!(World::coord_to_chunk_coord(5000), 4);
}

#[test]
fn added_terrain_is_found() {
    let mut w = World::new();
    let a = w.add_terrain(64, 96);
    let b = w.add_terrain(2048, 10);
    let c = w.add_terrain(100, 100);
    assert_eq!((a, b, c), (0, 1, 2));
    assert_eq!(*w.get_terrain(b).unwrap(), Terrain { element_id: 1, x: 2048, y: 10 });
    let c0 = w.get_chunk_from_xy(64, 96).unwrap();
    let c2 = w.get_chunk_from_xy(2048, 10).unwrap();
    assert_eq!(c0, 0);
    assert_eq!(c2, 1);
    assert_eq!(w.get_chunk_from_chunk_xy(2, 0), Some(1));
    assert_eq!(w.get_chunk_from_chunk_xy(1, 0), None);
    assert!(w.get_chunk_from_xy(5000, 5000).is_none());
    assert!(w.get_terrain(3).is_none());
}

#[test]
fn new_chunk_gets_the_next_id() {
    let mut w = World::new();
    assert_eq!(w.new_chunk(3, 4), 0);
    assert_eq!(w.new_chunk(0, 0), 1);
    assert_eq!(w.get_chunk_from_chunk_xy(3, 4), Some(0));
    assert_eq!(w.get_chunk_from_xy(3 * 1024 + 5, 4 * 1024), Some(0));
}

#[test]
fn removing_terrain_undoes_adding_it() {
    let mut w = World::new();
    let a = w.add_terrain(0, 0);
    w.set_terrain_archetype(a, "wall".to_string());
    let b = w.add_terrain(32, 0);
    w.set_terrain_archetype(b, "wall".to_string());
    w.remove_terrain(b).unwrap();
    assert!(w.get_terrain(b).is_none());
    assert!(w.get_terrain_archetype(b).is_none());
    assert!(w.get_terrain(a).is_some());
    assert_eq!(w.get_terrain_archetype(a).unwrap(), "wall");
    let e = w.remove_terrain(b).unwrap_err();
    assert!(matches!(e.error, PE::NotFound(ref d) if d.desc == "Tried to remove terrain with id 1, but it wasn't found"));
}

#[test]
fn terrain_tiles_cover_the_rectangle() {
    assert_eq!(World::get_terrain_tiles(0, 0, 32, 32), vec![(0, 0), (0, 1), (1, 0), (1, 1)]);
    assert_eq!(World::get_terrain_tiles(40, 70, 10, 10), vec![(1, 2)]);
    assert_eq!(World::get_terrain_tiles(31, 0, 2, 0), vec![(0, 0), (1, 0)]);
    assert_eq!(World::get_terrain_tiles(usize::MAX, usize::MAX, 0, 0).len(), 1);
}

#[test]
fn archetypes_give_tiles_their_tags() {
    let mut w = World::new();
    let t = w.add_terrain(64, 64);
    assert!(w.get_terrain_tags(t).is_none());
    w.add_terrain_archetype("wall".to_string(), vec![TerrainTags::BlocksMovement]);
    w.set_terrain_archetype(t, "wall".to_string());
    assert_eq!(w.get_terrain_tags(t).unwrap(), &vec![TerrainTags::BlocksMovement]);
    assert_eq!(w.get_archetype_tags("wall").unwrap(), &vec![TerrainTags::BlocksMovement]);
    assert!(w.get_archetype_tags("floor").is_none());
    w.set_terrain_sprite(t, 4);
    assert_eq!(w.get_terrain_sprite(t), Some(4));
    assert_eq!(w.get_terrain_sprite(t + 1), None);
}

fn walled_world() -> (World, usize, usize) {
    let mut w = World::new();
    w.add_terrain_archetype("wall".to_string(), vec![TerrainTags::BlocksMovement]);
    w.add_terrain_archetype("floor".to_string(), vec![TerrainTags::Sprite(3)]);
    let wall = w.add_terrain(64, 64);
    w.set_terrain_archetype(wall, "wall".to_string());
    let floor = w.add_terrain(128, 64);
    w.set_terrain_archetype(floor, "floor".to_string());
    (w, wall, floor)
}

#[test]
fn collision_cache_lists_blocking_terrain() {
    let (mut w, wall, _floor) = walled_world();
    w.set_loaded_chunks(vec![0]);
    w.generate_collision_cache_and_damage_cache(&vec![vec![]]).unwrap();
    // the wall's 32-pixel square touches four cells
    assert_eq!(w.collision_candidates(64, 64, 0, 0), vec![wall]);
    assert_eq!(w.collision_candidates(96, 96, 0, 0), vec![wall]);
    assert!(w.collision_candidates(128, 64, 0, 0).is_empty());
    assert!(w.check_terrain_collision(None, 70, 70, 4, 4));
    assert!(!w.check_terrain_collision(Some(wall), 70, 70, 4, 4));
    // touching the wall's edge is no overlap
    assert!(!w.check_terrain_collision(None, 96, 64, 4, 4));
    assert_eq!(w.terrain_overlaps(wall, 90, 90, 10, 10), Some(true));
    assert_eq!(w.terrain_overlaps(wall, 200, 90, 10, 10), Some(false));
    assert_eq!(w.terrain_overlaps(77, 90, 90, 10, 10), None);
}

#[test]
fn caches_list_entities_of_loaded_chunks() {
    let (mut w, wall, _) = walled_world();
    let e = w.add_entity(300, 300);
    w.set_loaded_chunks(vec![0]);
    let boxes = EntityBoxes { id: e, x: 300, y: 300, collision: Some((32, 32)), damage: Some((10, 10)) };
    w.generate_collision_cache_and_damage_cache(&vec![vec![boxes]]).unwrap();
    assert_eq!(w.collision_candidates(300, 300, 0, 0), vec![e]);
    assert_eq!(w.damage_candidates(300, 300, 40, 40), vec![e]);
    assert!(w.damage_candidates(64, 64, 1, 1).is_empty());
    let both = w.collision_candidates(64, 64, 300, 300);
    assert!(both.contains(&wall) && both.contains(&e));
    // nothing loaded: the caches are empty
    w.set_loaded_chunks(vec![]);
    w.generate_collision_cache_and_damage_cache(&vec![]).unwrap();
    assert!(w.collision_candidates(64, 64, 300, 300).is_empty());
}

#[test]
fn removed_terrain_leaves_the_cache() {
    let (mut w, wall, _) = walled_world();
    w.set_loaded_chunks(vec![0]);
    w.remove_terrain(wall).unwrap();
    w.generate_collision_cache_and_damage_cache(&vec![vec![]]).unwrap();
    assert!(w.collision_candidates(64, 64, 64, 64).is_empty());
    assert!(!w.check_terrain_collision(None, 70, 70, 4, 4));
}

#[test]
fn entities_join_and_leave_chunks() {
    let mut w = World::new();
    let a = w.add_entity(10, 10);
    let b = w.add_entity(2000, 10);
    assert_eq!((a, b), (0, 1));
    w.set_loaded_chunks(vec![1, 0]);
    assert_eq!(w.loaded_entities(), vec![0, 1]);
    // moving within the chunk keeps it there
    w.relocate_entity(a, 10, 10, 500, 500, false).unwrap();
    w.set_loaded_chunks(vec![0]);
    assert_eq!(w.loaded_entities(), vec![0]);
    // moving into the other chunk
    w.relocate_entity(a, 500, 500, 1500, 20, false).unwrap();
    assert!(w.loaded_entities().is_empty());
    w.set_loaded_chunks(vec![1]);
    assert_eq!(w.loaded_entities(), vec![0, 1]);
    // moving into a chunk that does not exist yet makes it
    w.relocate_entity(b, 2000, 10, 5000, 5000, false).unwrap();
    let c = w.get_chunk_from_xy(5000, 5000).unwrap();
    w.set_loaded_chunks(vec![c]);
    assert_eq!(w.loaded_entities(), vec![1]);
    let e = w.relocate_entity(b, 9000, 9000, 0, 0, false).unwrap_err();
    assert!(matches!(e.error, PE::UnwrapFailure(_)));
    w.remove_entity(b, 5000, 5000).unwrap();
    assert!(w.loaded_entities().is_empty());
    let e = w.remove_entity(b, 9000, 9000).unwrap_err();
    assert!(matches!(e.error, PE::Invalid(_)));
}

#[test]
fn relocating_an_entity_with_collision_updates_the_cache() {
    let mut w = World::new();
    let e = w.add_entity(0, 0);
    w.set_loaded_chunks(vec![0]);
    let boxes = EntityBoxes { id: e, x: 0, y: 0, collision: Some((32, 32)), damage: None };
    w.generate_collision_cache_and_damage_cache(&vec![vec![boxes]]).unwrap();
    assert_eq!(w.collision_candidates(0, 0, 0, 0), vec![e]);
    w.relocate_entity(e, 0, 0, 64, 0, true).unwrap();
    assert!(w.collision_candidates(0, 0, 0, 0).is_empty());
}

#[test]
fn pathfinding_frames_cycle() {
    let mut w = World::new();
    let ids: Vec<usize> = (0..6).map(|i| w.add_entity(i * 10, 0)).collect();
    assert!(w.pathfinds_this_frame(ids[0]));
    assert!(!w.pathfinds_this_frame(ids[1]));
    assert!(w.pathfinds_this_frame(ids[5]));
    w.advance_pathfinding_frame();
    assert!(w.pathfinds_this_frame(ids[1]));
    for _ in 0..4 {
        w.advance_pathfinding_frame();
    }
    assert!(w.pathfinds_this_frame(ids[0]));
    assert!(!w.pathfinds_this_frame(99));
}

#[test]
fn kill_list_collects_and_clears() {
    let mut w = World::new();
    w.kill_entity(3);
    w.kill_entity(1);
    assert_eq!(w.entities_to_be_killed(), &vec![3, 1]);
    w.clear_kill_list();
    assert!(w.entities_to_be_killed().is_empty());
}

#[test]
fn the_view_shows_the_chunks_it_covers() {
    let mut w = World::new();
    let a = w.add_terrain(0, 0);
    let b = w.add_terrain(2048, 0);
    let c = w.add_terrain(0, 1100);
    let _ = (a, b, c);
    // chunks: (0,0) -> 0, (2,0) -> 1, (0,1) -> 2
    assert_eq!(w.chunks_in_view(0, 0, 1151, 719), vec![0]);
    assert_eq!(w.chunks_in_view(0, 0, 2100, 1100), vec![0, 2, 1]);
    assert_eq!(w.chunks_in_view(1024, 0, 1500, 2000), Vec::<usize>::new());
    assert_eq!(w.chunks_in_view(2048, 0, 100, 100), Vec::<usize>::new());
}
