//! The terrain grid of the world: chunks of 1024 by 1024 pixels found by
//! their chunk coordinates, the terrain tiles in them, the tables that give
//! each tile its archetype and sprite, and the caches that list, for each
//! 32-pixel cell, what may block movement or take damage there.
use vstd::prelude::*;
use vstd::string::*;
use crate::error::{caused_as, decimal, decimal_string_usize, texts, ErrorKind, PError};
use crate::fx::{
    cell_map_get, cell_map_get_mut, cell_map_insert, cell_map_new, fx_get, fx_insert,
    fx_new, fx_remove, Cell, CellMap, IdMap,
};
use crate::terrain::{tag_entries, tag_table_get, tag_table_insert, tag_table_new, TagTable, Terrain, TerrainTags};

verus! {

/// A square of the world, 1024 pixels on a side, at chunk coordinates `(x, y)`,
/// with the ids of the terrain tiles and entities in it.
#[derive(Debug, Clone)]
pub struct Chunk {
    pub chunk_id: usize,
    pub x: usize,
    pub y: usize,
    pub terrain_ids: Vec<usize>,
    pub entities_ids: Vec<usize>,
}

/// The chunk coordinate of a pixel coordinate.
pub open spec fn chunk_coord(coord: int) -> int {
    coord / 1024
}

/// The chunk coordinates of the pixel `(x, y)`.
pub open spec fn chunk_cell(x: usize, y: usize) -> (usize, usize) {
    ((x / 1024) as usize, (y / 1024) as usize)
}

/// `a` and `b` agree in everything but their terrain ids.
pub open spec fn same_but_terrain(a: Chunk, b: Chunk) -> bool {
    &&& a.chunk_id == b.chunk_id
    &&& a.x == b.x
    &&& a.y == b.y
    &&& a.entities_ids@ == b.entities_ids@
}

/// The world's terrain grid.
#[derive(Debug)]
pub struct World {
    chunks: Vec<Chunk>,
    element_id: usize,
    chunk_lookup: CellMap<usize>,
    terrain: IdMap<Terrain>,
    terrain_archetype_tags_lookup: TagTable,
    terrain_archetype_lookup: IdMap<String>,
    terrain_sprite_lookup: IdMap<usize>,
    collision_cache: CellMap<Vec<usize>>,
    damage_cache: CellMap<Vec<usize>>,
    loaded_chunks: Vec<usize>,
    pathfinding_frames: IdMap<usize>,
    next_pathfinding_frame_for_entity: usize,
    pathfinding_frame: usize,
    entities_to_be_killed_at_end_of_frame: Vec<usize>,
}

impl World {
    /// The chunks, by id.
    pub closed spec fn chunks_view(&self) -> Seq<Chunk> {
        self.chunks@
    }

    /// The id the next element gets.
    pub closed spec fn next_id(&self) -> usize {
        self.element_id
    }

    /// The chunk id at each chunk coordinate.
    pub closed spec fn lookup(&self) -> Map<(usize, usize), usize> {
        self.chunk_lookup@
    }

    /// The terrain tiles, by id.
    pub closed spec fn terrain_view(&self) -> Map<usize, Terrain> {
        self.terrain@
    }

    /// The archetype name of each tile that has one.
    pub closed spec fn archetypes(&self) -> Map<usize, String> {
        self.terrain_archetype_lookup@
    }

    /// The tags of each archetype, by name.
    pub closed spec fn tags_view(&self) -> Map<Seq<char>, Seq<TerrainTags>> {
        tag_entries(self.terrain_archetype_tags_lookup)
    }

    /// The sprite of each tile that has one.
    pub closed spec fn sprites_view(&self) -> Map<usize, usize> {
        self.terrain_sprite_lookup@
    }

    /// The ids of the chunks that are loaded.
    pub closed spec fn loaded(&self) -> Seq<usize> {
        self.loaded_chunks@
    }

    /// The collision cache: for each cell, the ids that may block movement there.
    pub closed spec fn collision_view(&self) -> Map<(usize, usize), Seq<usize>> {
        self.collision_cache@.map_values(|v: Vec<usize>| v@)
    }

    /// The damage cache: for each cell, the ids that may take damage there.
    pub closed spec fn damage_view(&self) -> Map<(usize, usize), Seq<usize>> {
        self.damage_cache@.map_values(|v: Vec<usize>| v@)
    }

    /// The pathfinding frame of each entity: entities look for a path only
    /// on the frames that match theirs.
    pub closed spec fn frames(&self) -> Map<usize, usize> {
        self.pathfinding_frames@
    }

    /// The pathfinding frame the next entity gets.
    pub closed spec fn next_frame(&self) -> usize {
        self.next_pathfinding_frame_for_entity
    }

    /// The current pathfinding frame.
    pub closed spec fn frame(&self) -> usize {
        self.pathfinding_frame
    }

    /// The entities to be removed at the end of the frame.
    pub closed spec fn kill_list(&self) -> Seq<usize> {
        self.entities_to_be_killed_at_end_of_frame@
    }

    /// The entity bookkeeping is as in `other`.
    pub open spec fn same_entities(&self, other: &Self) -> bool {
        &&& self.frames() == other.frames()
        &&& self.next_frame() == other.next_frame()
        &&& self.frame() == other.frame()
        &&& self.kill_list() == other.kill_list()
    }

    /// The grid's invariant: each chunk knows its own id; the lookup names
    /// existing chunks at the coordinates they hold; every tile is kept under
    /// its own id; every tile id held, by the tile table or by a chunk, is
    /// below the next id; and the pathfinding frames count up to 5.
    pub closed spec fn wf(&self) -> bool {
        &&& forall|i: int| 0 <= i < self.chunks@.len() ==> #[trigger] self.chunks@[i].chunk_id == i
        &&& forall|c: (usize, usize)| #[trigger] self.chunk_lookup@.contains_key(c) ==> {
                &&& self.chunk_lookup@[c] < self.chunks@.len()
                &&& self.chunks@[self.chunk_lookup@[c] as int].x == c.0
                &&& self.chunks@[self.chunk_lookup@[c] as int].y == c.1
            }
        &&& forall|t: usize| #[trigger] self.terrain@.contains_key(t) ==> t < self.element_id && self.terrain@[t].element_id == t
        &&& forall|i: int, j: int| 0 <= i < self.chunks@.len() && 0 <= j < self.chunks@[i].terrain_ids@.len()
                ==> #[trigger] self.chunks@[i].terrain_ids@[j] < self.element_id
        &&& self.next_pathfinding_frame_for_entity < 5
        &&& self.pathfinding_frame < 5
    }

    /// Everything but the chunks, the lookup, the tiles and the next id is as in `other`.
    pub open spec fn same_tables(&self, other: &Self) -> bool {
        &&& self.archetypes() == other.archetypes()
        &&& self.tags_view() == other.tags_view()
        &&& self.sprites_view() == other.sprites_view()
        &&& self.loaded() == other.loaded()
        &&& self.collision_view() == other.collision_view()
        &&& self.damage_view() == other.damage_view()
    }

    /// The grid is as in `other`.
    pub open spec fn same_grid(&self, other: &Self) -> bool {
        &&& self.chunks_view() == other.chunks_view()
        &&& self.next_id() == other.next_id()
        &&& self.lookup() == other.lookup()
        &&& self.terrain_view() == other.terrain_view()
    }

    /// An empty world: no chunks, tiles, tables or cached cells, and nothing loaded.
    pub fn new() -> (r: Self)
        ensures
            r.wf(),
            r.chunks_view().len() == 0,
            r.next_id() == 0,
            r.lookup().is_empty(),
            r.terrain_view().is_empty(),
            r.archetypes().is_empty(),
            r.tags_view().is_empty(),
            r.sprites_view().is_empty(),
            r.loaded().len() == 0,
            r.collision_view().is_empty(),
            r.damage_view().is_empty(),
            r.frames().is_empty(),
            r.next_frame() == 0,
            r.frame() == 0,
            r.kill_list().len() == 0,
    {
        let r = World {
            chunks: Vec::new(),
            element_id: 0,
            chunk_lookup: cell_map_new(),
            terrain: fx_new(),
            terrain_archetype_tags_lookup: tag_table_new(),
            terrain_archetype_lookup: fx_new(),
            terrain_sprite_lookup: fx_new(),
            collision_cache: cell_map_new(),
            damage_cache: cell_map_new(),
            loaded_chunks: Vec::new(),
            pathfinding_frames: fx_new(),
            next_pathfinding_frame_for_entity: 0,
            pathfinding_frame: 0,
            entities_to_be_killed_at_end_of_frame: Vec::new(),
        };
        assert(r.frames() =~= Map::empty());
        assert(r.lookup() =~= Map::empty());
        assert(r.terrain_view() =~= Map::empty());
        assert(r.archetypes() =~= Map::empty());
        assert(r.sprites_view() =~= Map::empty());
        assert(r.collision_view() =~= Map::empty());
        assert(r.damage_view() =~= Map::empty());
        r
    }

    /// The chunk coordinate of the pixel coordinate `coord`.
    pub fn coord_to_chunk_coord(coord: usize) -> (r: usize)
        ensures
            r == chunk_coord(coord as int),
    {
        coord / 1024
    }

    /// Adds an empty chunk at chunk coordinates `(chunk_x, chunk_y)` and
    /// returns its id; the lookup then finds it there.
    pub fn new_chunk(&mut self, chunk_x: usize, chunk_y: usize) -> (r: usize)
        requires
            old(self).wf(),
        ensures
            final(self).wf(),
            final(self).same_entities(old(self)),
            r == old(self).chunks_view().len(),
            final(self).chunks_view().len() == r + 1,
            forall|i: int| 0 <= i < r ==> #[trigger] final(self).chunks_view()[i] == old(self).chunks_view()[i],
            final(self).chunks_view()[r as int].chunk_id == r,
            final(self).chunks_view()[r as int].x == chunk_x,
            final(self).chunks_view()[r as int].y == chunk_y,
            final(self).chunks_view()[r as int].terrain_ids@.len() == 0,
            final(self).chunks_view()[r as int].entities_ids@.len() == 0,
            final(self).lookup() == old(self).lookup().insert((chunk_x, chunk_y), r),
            final(self).terrain_view() == old(self).terrain_view(),
            final(self).next_id() == old(self).next_id(),
            final(self).same_tables(old(self)),
    {
        let id = self.chunks.len();
        self.chunks.push(Chunk { chunk_id: id, x: chunk_x, y: chunk_y, terrain_ids: Vec::new(), entities_ids: Vec::new() });
        cell_map_insert(&mut self.chunk_lookup, (chunk_x, chunk_y), id);
        proof {
            assert forall|i: int, j: int| 0 <= i < self.chunks@.len() && 0 <= j < self.chunks@[i].terrain_ids@.len()
                implies #[trigger] self.chunks@[i].terrain_ids@[j] < self.element_id by {
                if i < id {
                    assert(self.chunks@[i] == old(self).chunks@[i]);
                }
            }
        }
        id
    }

    /// The id of the chunk at chunk coordinates `(x, y)`, if there is one.
    pub fn get_chunk_from_chunk_xy(&self, x: usize, y: usize) -> (r: Option<usize>)
        ensures
            match r {
                Some(c) => self.lookup().contains_key((x, y)) && c == self.lookup()[(x, y)],
                None => !self.lookup().contains_key((x, y)),
            },
    {
        match cell_map_get(&self.chunk_lookup, (x, y)) {
            Some(c) => Some(*c),
            None => None,
        }
    }

    /// The id of the chunk that holds the pixel `(x, y)`, if there is one.
    pub fn get_chunk_from_xy(&self, x: usize, y: usize) -> (r: Option<usize>)
        ensures
            match r {
                Some(c) => self.lookup().contains_key(chunk_cell(x, y)) && c == self.lookup()[chunk_cell(x, y)],
                None => !self.lookup().contains_key(chunk_cell(x, y)),
            },
    {
        let cx = World::coord_to_chunk_coord(x);
        let cy = World::coord_to_chunk_coord(y);
        self.get_chunk_from_chunk_xy(cx, cy)
    }

    /// The tile with id `element_id`, if there is one.
    pub fn get_terrain(&self, element_id: usize) -> (r: Option<&Terrain>)
        ensures
            match r {
                Some(t) => self.terrain_view().contains_key(element_id) && *t == self.terrain_view()[element_id],
                None => !self.terrain_view().contains_key(element_id),
            },
    {
        fx_get(&self.terrain, element_id)
    }

    /// `self` is `old` after `add_terrain(x, y)` returned `r`: the tile `r`,
    /// with its corner at `(x, y)`, is kept and listed last in the chunk that
    /// holds `(x, y)`, which is new when there was none; nothing else changes.
    pub open spec fn terrain_added(&self, old: &Self, x: usize, y: usize, r: usize) -> bool {
        &&& r == old.next_id()
        &&& self.next_id() == r + 1
        &&& self.terrain_view() == old.terrain_view().insert(r, Terrain { element_id: r, x, y })
        &&& ({
            let cell = chunk_cell(x, y);
            let c = self.lookup()[cell];
            let old_len = old.chunks_view().len();
            &&& self.lookup() == old.lookup().insert(cell, c)
            &&& old.lookup().contains_key(cell) ==> {
                    &&& c == old.lookup()[cell]
                    &&& self.chunks_view().len() == old_len
                    &&& self.chunks_view()[c as int].terrain_ids@ == old.chunks_view()[c as int].terrain_ids@.push(r)
                    &&& same_but_terrain(self.chunks_view()[c as int], old.chunks_view()[c as int])
                }
            &&& !old.lookup().contains_key(cell) ==> {
                    &&& c == old_len
                    &&& self.chunks_view().len() == old_len + 1
                    &&& self.chunks_view()[c as int].chunk_id == c
                    &&& self.chunks_view()[c as int].x == cell.0
                    &&& self.chunks_view()[c as int].y == cell.1
                    &&& self.chunks_view()[c as int].terrain_ids@ == seq![r]
                    &&& self.chunks_view()[c as int].entities_ids@.len() == 0
                }
            &&& forall|i: int| 0 <= i < old_len && i != c ==> #[trigger] self.chunks_view()[i] == old.chunks_view()[i]
        })
        &&& self.same_tables(old)
    }

    /// Adds a tile with its top-left corner at `(x, y)` and returns its id.
    /// The tile goes into the chunk that holds `(x, y)`, which is made first
    /// when there is none.
    pub fn add_terrain(&mut self, x: usize, y: usize) -> (r: usize)
        requires
            old(self).wf(),
            old(self).next_id() < usize::MAX,
        ensures
            final(self).wf(),
            final(self).same_entities(old(self)),
            final(self).terrain_added(old(self), x, y, r),
    {
        let cx = World::coord_to_chunk_coord(x);
        let cy = World::coord_to_chunk_coord(y);
        let chunk_id = match self.get_chunk_from_chunk_xy(cx, cy) {
            Some(c) => c,
            None => self.new_chunk(cx, cy),
        };
        let ghost mid = self.chunks@;
        let id = self.element_id;
        self.element_id = id + 1;
        self.chunks[chunk_id].terrain_ids.push(id);
        fx_insert(&mut self.terrain, id, Terrain { element_id: id, x, y });
        proof {
            assert forall|i: int, j: int| 0 <= i < self.chunks@.len() && 0 <= j < self.chunks@[i].terrain_ids@.len()
                implies #[trigger] self.chunks@[i].terrain_ids@[j] < self.element_id by {
                if i != chunk_id {
                    assert(self.chunks@[i] == mid[i]);
                } else if j < mid[i].terrain_ids@.len() {
                    assert(self.chunks@[i].terrain_ids@[j] == mid[i].terrain_ids@[j]);
                }
            }
            assert forall|i: int| 0 <= i < self.chunks@.len() implies #[trigger] self.chunks@[i].chunk_id == i by {
                if i != chunk_id {
                    assert(self.chunks@[i] == mid[i]);
                }
            }
            assert forall|c: (usize, usize)| #[trigger] self.chunk_lookup@.contains_key(c) implies {
                &&& self.chunk_lookup@[c] < self.chunks@.len()
                &&& self.chunks@[self.chunk_lookup@[c] as int].x == c.0
                &&& self.chunks@[self.chunk_lookup@[c] as int].y == c.1
            } by {
                let k = self.chunk_lookup@[c] as int;
                if k != chunk_id {
                    assert(self.chunks@[k] == mid[k]);
                }
            }
            assert(self.chunk_lookup@ =~= old(self).chunk_lookup@.insert((cx, cy), chunk_id));
            assert(self.terrain_view() == old(self).terrain_view().insert(id, Terrain { element_id: id, x, y }));
            assert(chunk_cell(x, y) == (cx, cy));
            assert(self.lookup()[chunk_cell(x, y)] == chunk_id);
            assert(self.same_tables(old(self)));
            if !old(self).chunk_lookup@.contains_key((cx, cy)) {
                assert(self.chunks@[chunk_id as int].terrain_ids@ =~= seq![id]);
            }
        }
        id
    }

    /// `self` is `old` after `remove_terrain(element_id)` succeeded: the tile
    /// is gone from the tile table and the archetype table, and its first
    /// occurrence is gone from the chunk that holds its corner.
    pub open spec fn terrain_removed(&self, old: &Self, element_id: usize) -> bool {
        old.terrain_chunk(element_id) matches Some((c, k)) ==> {
            &&& self.chunks_view().len() == old.chunks_view().len()
            &&& self.chunks_view()[c as int].terrain_ids@ == old.chunks_view()[c as int].terrain_ids@.remove(k)
            &&& same_but_terrain(self.chunks_view()[c as int], old.chunks_view()[c as int])
            &&& forall|i: int| 0 <= i < old.chunks_view().len() && i != c
                    ==> #[trigger] self.chunks_view()[i] == old.chunks_view()[i]
            &&& self.terrain_view() == old.terrain_view().remove(element_id)
            &&& self.archetypes() == old.archetypes().remove(element_id)
            &&& self.lookup() == old.lookup()
            &&& self.next_id() == old.next_id()
            &&& self.tags_view() == old.tags_view()
            &&& self.sprites_view() == old.sprites_view()
            &&& self.loaded() == old.loaded()
            &&& self.collision_view() == old.collision_view()
            &&& self.damage_view() == old.damage_view()
        }
    }

    /// Removes the tile with id `element_id`: from the chunk that holds its
    /// corner (its first occurrence there), from the tile table and from the
    /// archetype table. Fails with `NotFound` when there is no such tile, and
    /// with `Invalid` when no chunk holds its corner or that chunk does not
    /// list it; the world is then unchanged.
    pub fn remove_terrain(&mut self, element_id: usize) -> (r: Result<(), PError>)
        requires
            old(self).wf(),
        ensures
            final(self).wf(),
            final(self).same_entities(old(self)),
            r is Ok <==> old(self).terrain_chunk(element_id) is Some,
            r matches Err(e) ==> old(self).removal_problem(element_id) matches Some((kind, d))
                && caused_as(e, kind, d, "World::remove_terrain"@, seq![]),
            r is Err ==> final(self).same_grid(old(self)) && final(self).same_tables(old(self)),
            final(self).terrain_removed(old(self), element_id),
    {
        let t = match fx_get(&self.terrain, element_id) {
            Some(t) => *t,
            None => {
                let mut d = "Tried to remove terrain with id ".to_owned();
                let n = decimal_string_usize(element_id);
                d.append(n.as_str());
                d.append(", but it wasn't found");
                let e = PError::raised(ErrorKind::NotFound, d, "World::remove_terrain");
                assert(texts(e.trace@) =~= seq![]);
                return Err(e);
            },
        };
        let chunk_id = match self.get_chunk_from_xy(t.x, t.y) {
            Some(c) => c,
            None => {
                let mut d = "Tried to remove terrain with id ".to_owned();
                let n = decimal_string_usize(element_id);
                d.append(n.as_str());
                d.append(", but it wasn't in a chunk?");
                let e = PError::raised(ErrorKind::Invalid, d, "World::remove_terrain");
                assert(texts(e.trace@) =~= seq![]);
                return Err(e);
            },
        };
        let index = match position_of(&self.chunks[chunk_id].terrain_ids, element_id) {
            Some(i) => i,
            None => {
                let mut d = "Tried to remove terrain with id ".to_owned();
                let n = decimal_string_usize(element_id);
                d.append(n.as_str());
                d.append(", but it wasn't in the chunk expected, chunk with id ");
                let m = decimal_string_usize(chunk_id);
                d.append(m.as_str());
                let e = PError::raised(ErrorKind::Invalid, d, "World::remove_terrain");
                assert(texts(e.trace@) =~= seq![]);
                return Err(e);
            },
        };
        proof { self.chunks@[chunk_id as int].terrain_ids@.index_of_first_ensures(element_id); }
        let ghost before = self.chunks@;
        self.chunks[chunk_id].terrain_ids.remove(index);
        fx_remove(&mut self.terrain, element_id);
        fx_remove(&mut self.terrain_archetype_lookup, element_id);
        proof {
            let old_ids = before[chunk_id as int].terrain_ids@;
            old_ids.remove_ensures(index as int);
            assert forall|i: int, j: int| 0 <= i < self.chunks@.len() && 0 <= j < self.chunks@[i].terrain_ids@.len()
                implies #[trigger] self.chunks@[i].terrain_ids@[j] < self.element_id by {
                if i != chunk_id {
                    assert(self.chunks@[i] == before[i]);
                } else if j < index {
                    assert(self.chunks@[i].terrain_ids@[j] == old_ids[j]);
                    assert(before[i].terrain_ids@[j] < self.element_id);
                } else {
                    assert(self.chunks@[i].terrain_ids@[j] == old_ids[j + 1]);
                    assert(before[i].terrain_ids@[j + 1] < self.element_id);
                }
            }
            assert forall|i: int| 0 <= i < self.chunks@.len() implies #[trigger] self.chunks@[i].chunk_id == i by {
                if i != chunk_id {
                    assert(self.chunks@[i] == before[i]);
                }
            }
            assert forall|c: (usize, usize)| #[trigger] self.chunk_lookup@.contains_key(c) implies {
                &&& self.chunk_lookup@[c] < self.chunks@.len()
                &&& self.chunks@[self.chunk_lookup@[c] as int].x == c.0
                &&& self.chunks@[self.chunk_lookup@[c] as int].y == c.1
            } by {
                let k = self.chunk_lookup@[c] as int;
                if k != chunk_id {
                    assert(self.chunks@[k] == before[k]);
                }
            }
        }
        Ok(())
    }

    /// Why the tile `element_id` cannot be removed, if it cannot: the kind
    /// and description of the error.
    pub open spec fn removal_problem(&self, element_id: usize) -> Option<(ErrorKind, Seq<char>)> {
        let lead = "Tried to remove terrain with id "@ + decimal(element_id as nat);
        if !self.terrain_view().contains_key(element_id) {
            Some((ErrorKind::NotFound, lead + ", but it wasn't found"@))
        } else {
            let t = self.terrain_view()[element_id];
            let cell = chunk_cell(t.x, t.y);
            if !self.lookup().contains_key(cell) {
                Some((ErrorKind::Invalid, lead + ", but it wasn't in a chunk?"@))
            } else if self.chunks_view()[self.lookup()[cell] as int].terrain_ids@.index_of_first(element_id) is None {
                Some((ErrorKind::Invalid, lead + ", but it wasn't in the chunk expected, chunk with id "@
                    + decimal(self.lookup()[cell] as nat)))
            } else {
                None
            }
        }
    }

    /// Where the tile `element_id` is listed: the chunk that holds its corner
    /// and the position of its first occurrence in that chunk's list, if the
    /// tile exists and is listed there.
    pub open spec fn terrain_chunk(&self, element_id: usize) -> Option<(usize, int)> {
        if !self.terrain_view().contains_key(element_id) {
            None
        } else {
            let t = self.terrain_view()[element_id];
            let cell = chunk_cell(t.x, t.y);
            if !self.lookup().contains_key(cell) {
                None
            } else {
                let c = self.lookup()[cell];
                match self.chunks_view()[c as int].terrain_ids@.index_of_first(element_id) {
                    Some(k) => Some((c, k)),
                    None => None,
                }
            }
        }
    }
}

impl World {
    /// Marks the chunks `chunk_ids` as the loaded ones.
    pub fn set_loaded_chunks(&mut self, chunk_ids: Vec<usize>)
        requires
            old(self).wf(),
        ensures
            final(self).wf(),
            final(self).same_entities(old(self)),
            final(self).loaded() == chunk_ids@,
            final(self).same_grid(old(self)),
            final(self).archetypes() == old(self).archetypes(),
            final(self).tags_view() == old(self).tags_view(),
            final(self).sprites_view() == old(self).sprites_view(),
            final(self).collision_view() == old(self).collision_view(),
            final(self).damage_view() == old(self).damage_view(),
    {
        self.loaded_chunks = chunk_ids;
    }

    /// Records `tags` as the tags of the archetype `name`.
    pub fn add_terrain_archetype(&mut self, name: String, tags: Vec<TerrainTags>)
        requires
            old(self).wf(),
        ensures
            final(self).wf(),
            final(self).same_entities(old(self)),
            final(self).tags_view() == old(self).tags_view().insert(name@, tags@),
            final(self).same_grid(old(self)),
            final(self).archetypes() == old(self).archetypes(),
            final(self).sprites_view() == old(self).sprites_view(),
            final(self).loaded() == old(self).loaded(),
            final(self).collision_view() == old(self).collision_view(),
            final(self).damage_view() == old(self).damage_view(),
    {
        tag_table_insert(&mut self.terrain_archetype_tags_lookup, name, tags);
    }

    /// Records `archetype_name` as the archetype of the element `id`.
    pub fn set_terrain_archetype(&mut self, id: usize, archetype_name: String)
        requires
            old(self).wf(),
        ensures
            final(self).wf(),
            final(self).same_entities(old(self)),
            final(self).archetypes() == old(self).archetypes().insert(id, archetype_name),
            final(self).same_grid(old(self)),
            final(self).tags_view() == old(self).tags_view(),
            final(self).sprites_view() == old(self).sprites_view(),
            final(self).loaded() == old(self).loaded(),
            final(self).collision_view() == old(self).collision_view(),
            final(self).damage_view() == old(self).damage_view(),
    {
        fx_insert(&mut self.terrain_archetype_lookup, id, archetype_name);
    }

    /// The archetype of the element `id`, if it has one.
    pub fn get_terrain_archetype(&self, id: usize) -> (r: Option<&String>)
        ensures
            match r {
                Some(a) => self.archetypes().contains_key(id) && *a == self.archetypes()[id],
                None => !self.archetypes().contains_key(id),
            },
    {
        fx_get(&self.terrain_archetype_lookup, id)
    }

    /// The tags of the archetype `archetype`, if it has been recorded.
    pub fn get_archetype_tags(&self, archetype: &str) -> (r: Option<&Vec<TerrainTags>>)
        ensures
            match r {
                Some(t) => self.tags_view().contains_key(archetype@) && t@ == self.tags_view()[archetype@],
                None => !self.tags_view().contains_key(archetype@),
            },
    {
        tag_table_get(&self.terrain_archetype_tags_lookup, archetype)
    }

    /// The tags of the element `id`: those of its archetype, when it has an
    /// archetype whose tags have been recorded.
    pub open spec fn tags_of(&self, id: usize) -> Option<Seq<TerrainTags>> {
        if self.archetypes().contains_key(id) && self.tags_view().contains_key(self.archetypes()[id]@) {
            Some(self.tags_view()[self.archetypes()[id]@])
        } else {
            None
        }
    }

    /// The tags of the element `id`, through its archetype.
    pub fn get_terrain_tags(&self, id: usize) -> (r: Option<&Vec<TerrainTags>>)
        ensures
            match r {
                Some(t) => self.tags_of(id) == Some(t@),
                None => self.tags_of(id) is None,
            },
    {
        match fx_get(&self.terrain_archetype_lookup, id) {
            Some(name) => tag_table_get(&self.terrain_archetype_tags_lookup, name.as_str()),
            None => None,
        }
    }

    /// The sprite of the tile `terrain_id`, if it has one.
    pub fn get_terrain_sprite(&self, terrain_id: usize) -> (r: Option<usize>)
        ensures
            match r {
                Some(s) => self.sprites_view().contains_key(terrain_id) && s == self.sprites_view()[terrain_id],
                None => !self.sprites_view().contains_key(terrain_id),
            },
    {
        match fx_get(&self.terrain_sprite_lookup, terrain_id) {
            Some(s) => Some(*s),
            None => None,
        }
    }

    /// Records `sprite_id` as the sprite of the tile `terrain_id`.
    pub fn set_terrain_sprite(&mut self, terrain_id: usize, sprite_id: usize)
        requires
            old(self).wf(),
        ensures
            final(self).wf(),
            final(self).same_entities(old(self)),
            final(self).sprites_view() == old(self).sprites_view().insert(terrain_id, sprite_id),
            final(self).same_grid(old(self)),
            final(self).archetypes() == old(self).archetypes(),
            final(self).tags_view() == old(self).tags_view(),
            final(self).loaded() == old(self).loaded(),
            final(self).collision_view() == old(self).collision_view(),
            final(self).damage_view() == old(self).damage_view(),
    {
        fx_insert(&mut self.terrain_sprite_lookup, terrain_id, sprite_id);
    }
}

/// The 32-pixel cells that the rectangle with its top-left corner at `(x, y)`,
/// `w` wide and `h` high, touches: every column from the one of `x` to the one
/// of `x + w`, and in each column every row from the one of `y` to the one of
/// `y + h`, column by column.
pub open spec fn terrain_tiles(x: usize, y: usize, w: usize, h: usize) -> Seq<(usize, usize)> {
    let left = x as int / 32;
    let right = (x + w) / 32;
    let top = y as int / 32;
    let bot = (y + h) / 32;
    let ny = bot - top + 1;
    Seq::new(((right - left + 1) * ny) as nat, |i: int| ((left + i / ny) as usize, (top + i % ny) as usize))
}

proof fn lemma_split_div(x: int, w: int)
    requires
        x >= 0,
        w >= 0,
    ensures
        (x + w) / 32 == x / 32 + w / 32 + (x % 32 + w % 32) / 32,
        x / 32 <= (x + w) / 32,
{
    vstd::arithmetic::div_mod::lemma_fundamental_div_mod(x, 32);
    vstd::arithmetic::div_mod::lemma_fundamental_div_mod(w, 32);
    vstd::arithmetic::div_mod::lemma_fundamental_div_mod(x % 32 + w % 32, 32);
    vstd::arithmetic::div_mod::lemma_fundamental_div_mod_converse(
        x + w, 32, x / 32 + w / 32 + (x % 32 + w % 32) / 32, (x % 32 + w % 32) % 32);
}

proof fn lemma_tile_index(i: int, ny: int, a: int, b: int)
    requires
        ny > 0,
        0 <= b < ny,
        i == a * ny + b,
    ensures
        i / ny == a,
        i % ny == b,
{
    vstd::arithmetic::div_mod::lemma_fundamental_div_mod_converse(i, ny, a, b);
}

impl World {
    /// The cells that a rectangle touches (see [`terrain_tiles`]).
    pub fn get_terrain_tiles(x: usize, y: usize, w: usize, h: usize) -> (r: Vec<(usize, usize)>)
        ensures
            r@ == terrain_tiles(x, y, w, h),
    {
        proof {
            lemma_split_div(x as int, w as int);
            lemma_split_div(y as int, h as int);
        }
        let left = x / 32;
        let right = x / 32 + w / 32 + (x % 32 + w % 32) / 32;
        let top = y / 32;
        let bot = y / 32 + h / 32 + (y % 32 + h % 32) / 32;
        let ghost spec_tiles = terrain_tiles(x, y, w, h);
        let ghost ny: int = bot - top + 1;
        let mut tiles: Vec<(usize, usize)> = Vec::new();
        let mut a = left;
        while a <= right
            invariant
                left <= a <= right + 1,
                right == (x + w) / 32,
                left == x / 32,
                top == y / 32,
                bot == (y + h) / 32,
                top <= bot,
                bot < usize::MAX,
                right < usize::MAX,
                ny == bot - top + 1,
                spec_tiles == terrain_tiles(x, y, w, h),
                tiles@ == spec_tiles.take((a - left) * ny),
            decreases right + 1 - a,
        {
            let mut b = top;
            while b <= bot
                invariant
                    left <= a <= right,
                    top <= b <= bot + 1,
                    right == (x + w) / 32,
                    left == x / 32,
                    top == y / 32,
                    bot == (y + h) / 32,
                    bot < usize::MAX,
                    ny == bot - top + 1,
                    spec_tiles == terrain_tiles(x, y, w, h),
                    tiles@ == spec_tiles.take((a - left) * ny + (b - top)),
                decreases bot + 1 - b,
            {
                proof {
                    let i = (a - left) * ny + (b - top);
                    lemma_tile_index(i, ny, a - left, b - top);
                    assert((a - left + 1) * ny == (a - left) * ny + ny) by (nonlinear_arith);
                    assert((a - left) * ny + ny <= (right - left + 1) * ny) by (nonlinear_arith)
                        requires a <= right, ny > 0;
                    assert(spec_tiles[i] == (a, b));
                    assert(spec_tiles.take(i + 1) =~= spec_tiles.take(i).push((a, b)));
                }
                tiles.push((a, b));
                b = b + 1;
            }
            proof {
                assert((a - left) * ny + (bot + 1 - top) == (a + 1 - left) * ny) by (nonlinear_arith)
                    requires ny == bot - top + 1;
            }
            a = a + 1;
        }
        proof {
            assert(spec_tiles.take((a - left) * ny) =~= spec_tiles);
        }
        tiles
    }
}


/// A tile that was just added is found: the tile table holds it with its
/// corner where it was put, the chunk that holds that corner lists it, and
/// the lookup finds that chunk from the corner's pixel coordinates.
pub proof fn lemma_added_terrain_is_found(before: World, after: World, x: usize, y: usize, r: usize)
    requires
        before.wf(),
        after.terrain_added(&before, x, y, r),
    ensures
        after.terrain_view().contains_key(r),
        after.terrain_view()[r] == (Terrain { element_id: r, x, y }),
        after.lookup().contains_key(chunk_cell(x, y)),
        after.terrain_chunk(r) matches Some((c, k)) && c == after.lookup()[chunk_cell(x, y)]
            && k == after.chunks_view()[c as int].terrain_ids@.len() - 1,
{
    before.lemma_ids_below_next();
    let cell = chunk_cell(x, y);
    let c = after.lookup()[cell];
    let ids = after.chunks_view()[c as int].terrain_ids@;
    let k = ids.len() - 1;
    assert(ids[k] == r);
    assert forall|j: int| 0 <= j < k implies ids[j] != r by {
        if before.lookup().contains_key(cell) {
            assert(ids[j] == before.chunks_view()[c as int].terrain_ids@[j]);
        }
    }
    ids.index_of_first_ensures(r);
    assert(ids.contains(r));
}

/// Removing a tile right after adding it undoes the addition: the tile table
/// is as before, and every chunk that existed lists the tiles it listed
/// before; the archetype table has no entry for the new id. Only the next id
/// stays advanced, and a chunk made for the tile stays, empty.
pub proof fn lemma_remove_undoes_add(w0: World, w1: World, w2: World, x: usize, y: usize, r: usize)
    requires
        w0.wf(),
        w1.terrain_added(&w0, x, y, r),
        w2.terrain_removed(&w1, r),
    ensures
        w1.terrain_chunk(r) is Some,
        w2.terrain_view() == w0.terrain_view(),
        w2.archetypes() == w0.archetypes().remove(r),
        w2.lookup() == w1.lookup(),
        w2.chunks_view().len() == w1.chunks_view().len(),
        forall|i: int| 0 <= i < w0.chunks_view().len() ==> #[trigger] w2.chunks_view()[i].terrain_ids@ == w0.chunks_view()[i].terrain_ids@,
        w0.chunks_view().len() < w2.chunks_view().len() ==> w2.chunks_view()[w0.chunks_view().len() as int].terrain_ids@.len() == 0,
{
    lemma_added_terrain_is_found(w0, w1, x, y, r);
    w0.lemma_ids_below_next();
    let cell = chunk_cell(x, y);
    let c = w1.lookup()[cell];
    let ids = w1.chunks_view()[c as int].terrain_ids@;
    assert(ids.remove(ids.len() - 1) =~= ids.drop_last());
    assert(!w0.terrain_view().contains_key(r));
    assert(w2.terrain_view() =~= w0.terrain_view());
    if w0.lookup().contains_key(cell) {
        assert(ids.drop_last() =~= w0.chunks_view()[c as int].terrain_ids@);
    } else {
        assert(ids.drop_last() =~= Seq::<usize>::empty());
    }
}

impl World {
    /// Under the invariant, no tile or chunk holds the next id.
    pub proof fn lemma_ids_below_next(&self)
        requires
            self.wf(),
        ensures
            !self.terrain_view().contains_key(self.next_id()),
            forall|i: int, j: int| 0 <= i < self.chunks_view().len() && 0 <= j < self.chunks_view()[i].terrain_ids@.len()
                ==> #[trigger] self.chunks_view()[i].terrain_ids@[j] < self.next_id(),
            forall|c: (usize, usize)| #[trigger] self.lookup().contains_key(c) ==> self.lookup()[c] < self.chunks_view().len(),
    {
        assert forall|i: int, j: int| 0 <= i < self.chunks_view().len() && 0 <= j < self.chunks_view()[i].terrain_ids@.len()
            implies #[trigger] self.chunks_view()[i].terrain_ids@[j] < self.next_id() by {
            assert(self.chunks@[i].terrain_ids@[j] < self.element_id);
        }
    }
}

/// The position of the first occurrence of `v` in `ids`, if it occurs.
fn position_of(ids: &Vec<usize>, v: usize) -> (r: Option<usize>)
    ensures
        match r {
            Some(k) => ids@.index_of_first(v) == Some(k as int),
            None => ids@.index_of_first(v) is None,
        },
{
    proof { ids@.index_of_first_ensures(v); }
    let n = ids.len();
    for i in 0..n
        invariant
            n == ids@.len(),
            forall|j: int| 0 <= j < i ==> ids@[j] != v,
            match ids@.index_of_first(v) {
                Some(index) => {
                    &&& ids@.contains(v)
                    &&& 0 <= index < ids@.len()
                    &&& ids@[index] == v
                    &&& forall|j: int| 0 <= j < index < ids@.len() ==> ids@[j] != v
                },
                None => !ids@.contains(v),
            },
    {
        if ids[i] == v {
            return Some(i);
        }
    }
    None
}

} // verus!

verus! {

/// One record of a cache: a cell and an id listed there.
pub type CachePush = ((usize, usize), usize);

/// The boxes of an entity that the caches record: its id, the corner of its
/// position, and the width and height of its collision box and of its damage
/// box, for the boxes it has.
#[derive(Debug, Clone, Copy)]
pub struct EntityBoxes {
    pub id: usize,
    pub x: usize,
    pub y: usize,
    pub collision: Option<(usize, usize)>,
    pub damage: Option<(usize, usize)>,
}

/// A cache after the records `ps`, made in order starting from `base`: each
/// record appends its id to its cell's list, which starts empty.
pub open spec fn cache_after(base: Map<(usize, usize), Seq<usize>>, ps: Seq<CachePush>) -> Map<(usize, usize), Seq<usize>>
    decreases ps.len(),
{
    if ps.len() == 0 {
        base
    } else {
        let m = cache_after(base, ps.drop_last());
        let (cell, id) = ps.last();
        m.insert(cell, (if m.contains_key(cell) { m[cell] } else { Seq::empty() }).push(id))
    }
}

/// The records that list `id` at each of `tiles`, in order.
pub open spec fn tile_pushes(tiles: Seq<(usize, usize)>, id: usize) -> Seq<CachePush> {
    tiles.map_values(|t: (usize, usize)| (t, id))
}

/// The collision records of the tile `t` (kept under `id`) with the tags
/// `tags`: its cells once for every `BlocksMovement` tag.
pub open spec fn tag_pushes(t: Terrain, id: usize, tags: Seq<TerrainTags>) -> Seq<CachePush>
    decreases tags.len(),
{
    if tags.len() == 0 {
        Seq::empty()
    } else {
        tag_pushes(t, id, tags.drop_last()) + if tags.last() == TerrainTags::BlocksMovement {
            tile_pushes(terrain_tiles(t.x, t.y, 32, 32), id)
        } else {
            Seq::empty()
        }
    }
}

/// The collision records (when `collision`) or damage records of the
/// entities `ents`, in order.
pub open spec fn entity_pushes(ents: Seq<EntityBoxes>, collision: bool) -> Seq<CachePush>
    decreases ents.len(),
{
    if ents.len() == 0 {
        Seq::empty()
    } else {
        let e = ents.last();
        let b = if collision { e.collision } else { e.damage };
        entity_pushes(ents.drop_last(), collision) + match b {
            Some((w, h)) => tile_pushes(terrain_tiles(e.x, e.y, w, h), e.id),
            None => Seq::empty(),
        }
    }
}

proof fn lemma_cache_after_append(base: Map<(usize, usize), Seq<usize>>, a: Seq<CachePush>, b: Seq<CachePush>, p: CachePush)
    ensures
        cache_after(base, a + b.push(p)) == ({
            let m = cache_after(base, a + b);
            m.insert(p.0, (if m.contains_key(p.0) { m[p.0] } else { Seq::empty() }).push(p.1))
        }),
{
    assert((a + b.push(p)).drop_last() =~= a + b);
}

impl World {
    /// The collision records of the tiles `ids` of a chunk, walked in order,
    /// and whether the walk met only existing tiles; it stops at the first
    /// id with no tile.
    pub open spec fn terrain_run(&self, ids: Seq<usize>) -> (Seq<CachePush>, bool)
        decreases ids.len(),
    {
        if ids.len() == 0 {
            (Seq::empty(), true)
        } else {
            let (p, ok) = self.terrain_run(ids.drop_last());
            let id = ids.last();
            if !ok || !self.terrain_view().contains_key(id) {
                (p, false)
            } else {
                match self.tags_of(id) {
                    Some(tags) => (p + tag_pushes(self.terrain_view()[id], id, tags), true),
                    None => (p, true),
                }
            }
        }
    }

    /// The collision and damage records of the loaded chunks `loaded`, walked
    /// in order with `ents[k]` the entities of the `k`-th one, and whether the
    /// walk met only existing tiles; it stops at the first id with no tile.
    pub open spec fn cache_run(&self, loaded: Seq<usize>, ents: Seq<Seq<EntityBoxes>>) -> (Seq<CachePush>, Seq<CachePush>, bool)
        decreases loaded.len(),
    {
        if loaded.len() == 0 {
            (Seq::empty(), Seq::empty(), true)
        } else {
            let (c, d, ok) = self.cache_run(loaded.drop_last(), ents);
            if !ok {
                (c, d, false)
            } else {
                let (tp, tok) = self.terrain_run(self.chunks_view()[loaded.last() as int].terrain_ids@);
                if !tok {
                    (c + tp, d, false)
                } else {
                    let e = ents[loaded.len() - 1];
                    (c + tp + entity_pushes(e, true), d + entity_pushes(e, false), true)
                }
            }
        }
    }

    /// The first of the tile ids `ids` that names no tile, if any.
    pub open spec fn first_missing_in(&self, ids: Seq<usize>) -> Option<usize>
        decreases ids.len(),
    {
        if ids.len() == 0 {
            None
        } else {
            match self.first_missing_in(ids.drop_last()) {
                Some(t) => Some(t),
                None => if !self.terrain_view().contains_key(ids.last()) {
                    Some(ids.last())
                } else {
                    None
                },
            }
        }
    }

    /// The first tile id, in the order the caches are built, that the chunks
    /// `loaded` list and that names no tile, if any, with the chunk that lists it.
    pub open spec fn first_missing_tile(&self, loaded: Seq<usize>) -> Option<(usize, usize)>
        decreases loaded.len(),
    {
        if loaded.len() == 0 {
            None
        } else {
            match self.first_missing_tile(loaded.drop_last()) {
                Some(t) => Some(t),
                None => match self.first_missing_in(self.chunks_view()[loaded.last() as int].terrain_ids@) {
                    Some(t) => Some((loaded.last(), t)),
                    None => None,
                },
            }
        }
    }

    /// The entities of each loaded chunk as sequences.
    pub open spec fn entity_lists(chunk_entities: Seq<Vec<EntityBoxes>>) -> Seq<Seq<EntityBoxes>> {
        chunk_entities.map_values(|v: Vec<EntityBoxes>| v@)
    }
}

/// A walk over tiles that has stopped stays stopped, with the same records.
proof fn lemma_terrain_run_stops(w: World, ids: Seq<usize>, j: int)
    requires
        0 <= j <= ids.len(),
        !w.terrain_run(ids.take(j)).1,
    ensures
        w.terrain_run(ids) == w.terrain_run(ids.take(j)),
    decreases ids.len() - j,
{
    if j < ids.len() {
        assert(ids.take(j + 1).drop_last() =~= ids.take(j));
        lemma_terrain_run_stops(w, ids, j + 1);
    } else {
        assert(ids.take(j) =~= ids);
    }
}

/// A walk over chunks that has stopped stays stopped, with the same records.
proof fn lemma_cache_run_stops(w: World, loaded: Seq<usize>, ents: Seq<Seq<EntityBoxes>>, k: int)
    requires
        0 <= k <= loaded.len(),
        !w.cache_run(loaded.take(k), ents).2,
    ensures
        w.cache_run(loaded, ents) == w.cache_run(loaded.take(k), ents),
    decreases loaded.len() - k,
{
    if k < loaded.len() {
        assert(loaded.take(k + 1).drop_last() =~= loaded.take(k));
        lemma_cache_run_stops(w, loaded, ents, k + 1);
    } else {
        assert(loaded.take(k) =~= loaded);
    }
}

/// A walk over tiles stops exactly at the first id that names no tile.
proof fn lemma_terrain_run_missing(w: World, ids: Seq<usize>)
    ensures
        w.terrain_run(ids).1 <==> w.first_missing_in(ids) is None,
    decreases ids.len(),
{
    if ids.len() > 0 {
        lemma_terrain_run_missing(w, ids.drop_last());
    }
}

/// The first missing id of a prefix is the first missing id of the whole.
proof fn lemma_missing_in_stays(w: World, ids: Seq<usize>, j: int)
    requires
        0 <= j <= ids.len(),
        w.first_missing_in(ids.take(j)) is Some,
    ensures
        w.first_missing_in(ids) == w.first_missing_in(ids.take(j)),
    decreases ids.len() - j,
{
    if j < ids.len() {
        assert(ids.take(j + 1).drop_last() =~= ids.take(j));
        lemma_missing_in_stays(w, ids, j + 1);
    } else {
        assert(ids.take(j) =~= ids);
    }
}

/// The first missing tile of the first chunks is that of all of them.
proof fn lemma_missing_tile_stays(w: World, loaded: Seq<usize>, k: int)
    requires
        0 <= k <= loaded.len(),
        w.first_missing_tile(loaded.take(k)) is Some,
    ensures
        w.first_missing_tile(loaded) == w.first_missing_tile(loaded.take(k)),
    decreases loaded.len() - k,
{
    if k < loaded.len() {
        assert(loaded.take(k + 1).drop_last() =~= loaded.take(k));
        lemma_missing_tile_stays(w, loaded, k + 1);
    } else {
        assert(loaded.take(k) =~= loaded);
    }
}

/// The description of the error about the tile id `t`, listed by chunk
/// `chunk`, that names no tile.
pub open spec fn missing_tile_text(chunk: usize, t: usize) -> Seq<char> {
    "chunk with id "@ + decimal(chunk as nat) + " refers to terrain with id "@ + decimal(t as nat)
        + ", but there is no terrain with id "@ + decimal(t as nat)
}

/// The view of a cache: each cell's list as a sequence.
pub open spec fn cache_view(m: Map<(usize, usize), Vec<usize>>) -> Map<(usize, usize), Seq<usize>> {
    m.map_values(|v: Vec<usize>| v@)
}

/// Appends `id` to the list of `cell`, which starts empty.
fn cache_push(cache: &mut CellMap<Vec<usize>>, cell: (usize, usize), id: usize)
    ensures
        cache_view(final(cache)@) == ({
            let m = cache_view(old(cache)@);
            m.insert(cell, (if m.contains_key(cell) { m[cell] } else { Seq::empty() }).push(id))
        }),
{
    match cell_map_get_mut(cache, cell) {
        Some(entry) => {
            entry.push(id);
        },
        None => {
            let mut v: Vec<usize> = Vec::new();
            v.push(id);
            cell_map_insert(cache, cell, v);
        },
    }
    proof {
        let m = cache_view(old(cache)@);
        assert(cache_view(cache@) =~= m.insert(cell, (if m.contains_key(cell) { m[cell] } else { Seq::empty() }).push(id)));
    }
}

/// Appends `id` to the list of every cell of `tiles`, in order.
fn cache_push_tiles(cache: &mut CellMap<Vec<usize>>, tiles: &Vec<(usize, usize)>, id: usize, Ghost(base): Ghost<Seq<CachePush>>)
    requires
        cache_view(old(cache)@) == cache_after(Map::empty(), base),
    ensures
        cache_view(final(cache)@) == cache_after(Map::empty(), base + tile_pushes(tiles@, id)),
{
    let n = tiles.len();
    for q in 0..n
        invariant
            n == tiles@.len(),
            cache_view(cache@) == cache_after(Map::empty(), base + tile_pushes(tiles@.take(q as int), id)),
    {
        let t = tiles[q];
        proof {
            lemma_cache_after_append(Map::empty(), base, tile_pushes(tiles@.take(q as int), id), (t, id));
            assert(tile_pushes(tiles@.take(q + 1), id) =~= tile_pushes(tiles@.take(q as int), id).push((t, id)));
        }
        cache_push(cache, t, id);
    }
    assert(tiles@.take(n as int) =~= tiles@);
}

} // verus!

verus! {

/// The tags of the element `id` through its archetype, looked up in the two tables.
fn tags_for<'a>(archetypes: &IdMap<String>, table: &'a TagTable, id: usize) -> (r: Option<&'a Vec<TerrainTags>>)
    ensures
        match r {
            Some(t) => archetypes@.contains_key(id) && tag_entries(*table).contains_key(archetypes@[id]@)
                && t@ == tag_entries(*table)[archetypes@[id]@],
            None => !(archetypes@.contains_key(id) && tag_entries(*table).contains_key(archetypes@[id]@)),
        },
{
    match fx_get(archetypes, id) {
        Some(name) => tag_table_get(table, name.as_str()),
        None => None,
    }
}

impl World {
    /// Rebuilds the collision and damage caches from the loaded chunks, in
    /// order. For each chunk, each of its tiles, in order, is listed at its
    /// cells in the collision cache once for every `BlocksMovement` tag of its
    /// archetype; then each entity of `chunk_entities` (one list per loaded
    /// chunk) is listed at the cells of its collision box in the collision
    /// cache and at those of its damage box in the damage cache. Fails with
    /// `Invalid` at the first tile id that names no tile; the caches then hold
    /// what was listed before it.
    pub fn generate_collision_cache_and_damage_cache(&mut self, chunk_entities: &Vec<Vec<EntityBoxes>>) -> (r: Result<(), PError>)
        requires
            old(self).wf(),
            chunk_entities@.len() == old(self).loaded().len(),
            forall|k: int| 0 <= k < old(self).loaded().len() ==> #[trigger] old(self).loaded()[k] < old(self).chunks_view().len(),
        ensures
            final(self).wf(),
            final(self).same_entities(old(self)),
            final(self).same_grid(old(self)),
            final(self).archetypes() == old(self).archetypes(),
            final(self).tags_view() == old(self).tags_view(),
            final(self).sprites_view() == old(self).sprites_view(),
            final(self).loaded() == old(self).loaded(),
            final(self).collision_view() == cache_after(Map::empty(), old(self).cache_run(old(self).loaded(), World::entity_lists(chunk_entities@)).0),
            final(self).damage_view() == cache_after(Map::empty(), old(self).cache_run(old(self).loaded(), World::entity_lists(chunk_entities@)).1),
            r is Ok <==> old(self).cache_run(old(self).loaded(), World::entity_lists(chunk_entities@)).2,
            r matches Err(e) ==> old(self).first_missing_tile(old(self).loaded()) matches Some((c, t))
                && caused_as(e, ErrorKind::Invalid, missing_tile_text(c, t), "World::generate_collision_cache_and_damage_cache"@, seq![]),
    {
        let (coll, dmg, res) = self.build_caches(chunk_entities);
        self.collision_cache = coll;
        self.damage_cache = dmg;
        res
    }

    /// The two caches that [`Self::generate_collision_cache_and_damage_cache`]
    /// builds, and its result.
    #[verifier::loop_isolation(false)]
    fn build_caches(&self, chunk_entities: &Vec<Vec<EntityBoxes>>) -> (r: (CellMap<Vec<usize>>, CellMap<Vec<usize>>, Result<(), PError>))
        requires
            self.wf(),
            chunk_entities@.len() == self.loaded().len(),
            forall|k: int| 0 <= k < self.loaded().len() ==> #[trigger] self.loaded()[k] < self.chunks_view().len(),
        ensures
            cache_view(r.0@) == cache_after(Map::empty(), self.cache_run(self.loaded(), World::entity_lists(chunk_entities@)).0),
            cache_view(r.1@) == cache_after(Map::empty(), self.cache_run(self.loaded(), World::entity_lists(chunk_entities@)).1),
            r.2 is Ok <==> self.cache_run(self.loaded(), World::entity_lists(chunk_entities@)).2,
            r.2 matches Err(e) ==> self.first_missing_tile(self.loaded()) matches Some((c, t))
                && caused_as(e, ErrorKind::Invalid, missing_tile_text(c, t), "World::generate_collision_cache_and_damage_cache"@, seq![]),
    {
        let mut coll: CellMap<Vec<usize>> = cell_map_new();
        let mut dmg: CellMap<Vec<usize>> = cell_map_new();
        let ghost ents = World::entity_lists(chunk_entities@);
        let ghost loaded = self.loaded_chunks@;
        let n = self.loaded_chunks.len();
        proof {
            assert(cache_view(coll@) =~= Map::empty());
            assert(cache_view(dmg@) =~= Map::empty());
            assert(loaded.take(0) =~= Seq::<usize>::empty());
        }
        for k in 0..n
            invariant
                cache_view(coll@) == cache_after(Map::empty(), self.cache_run(loaded.take(k as int), ents).0),
                cache_view(dmg@) == cache_after(Map::empty(), self.cache_run(loaded.take(k as int), ents).1),
                self.cache_run(loaded.take(k as int), ents).2,
                self.first_missing_tile(loaded.take(k as int)) is None,
        {
            let chunk_id = self.loaded_chunks[k];
            let ghost run_k = self.cache_run(loaded.take(k as int), ents);
            proof {
                assert(loaded.take(k + 1).drop_last() =~= loaded.take(k as int));
                assert(loaded.take(k + 1).last() == chunk_id);
            }
            let res = self.cache_chunk_terrain(chunk_id, &self.chunks[chunk_id].terrain_ids, &mut coll, Ghost(run_k.0));
            if res.is_err() {
                proof {
                    lemma_cache_run_stops(*self, loaded, ents, k + 1);
                    lemma_missing_tile_stays(*self, loaded, k + 1);
                }
                return (coll, dmg, res);
            }
            let ghost tp = self.terrain_run(self.chunks@[chunk_id as int].terrain_ids@).0;
            proof { assert(ents[k as int] == chunk_entities@[k as int]@); }
            cache_entities(&chunk_entities[k], &mut coll, &mut dmg, Ghost(run_k.0 + tp), Ghost(run_k.1));
        }
        proof {
            assert(loaded.take(n as int) =~= loaded);
        }
        (coll, dmg, Ok(()))
    }

    /// Lists the tiles `ids` of chunk `chunk_id` in the collision cache `coll`
    /// after the records `base`, stopping with `Invalid` at the first id that
    /// names no tile.
    #[verifier::loop_isolation(false)]
    fn cache_chunk_terrain(&self, chunk_id: usize, ids: &Vec<usize>, coll: &mut CellMap<Vec<usize>>, Ghost(base): Ghost<Seq<CachePush>>) -> (r: Result<(), PError>)
        requires
            cache_view(old(coll)@) == cache_after(Map::empty(), base),
        ensures
            cache_view(final(coll)@) == cache_after(Map::empty(), base + self.terrain_run(ids@).0),
            r is Ok <==> self.terrain_run(ids@).1,
            r is Ok <==> self.first_missing_in(ids@) is None,
            r matches Err(e) ==> self.first_missing_in(ids@) matches Some(t)
                && caused_as(e, ErrorKind::Invalid, missing_tile_text(chunk_id, t), "World::generate_collision_cache_and_damage_cache"@, seq![]),
    {
        proof { lemma_terrain_run_missing(*self, ids@); }
        let m = ids.len();
        proof {
            assert(ids@.take(0) =~= Seq::<usize>::empty());
            assert(base + Seq::<CachePush>::empty() =~= base);
        }
        for j in 0..m
            invariant
                cache_view(coll@) == cache_after(Map::empty(), base + self.terrain_run(ids@.take(j as int)).0),
                self.terrain_run(ids@.take(j as int)).1,
                self.first_missing_in(ids@.take(j as int)) is None,
        {
            let tid = ids[j];
            let ghost before_j = self.terrain_run(ids@.take(j as int)).0;
            proof {
                assert(ids@.take(j + 1).drop_last() =~= ids@.take(j as int));
                assert(ids@.take(j + 1).last() == tid);
            }
            let terrain = match fx_get(&self.terrain, tid) {
                Some(t) => *t,
                None => {
                    proof {
                        assert(self.terrain_run(ids@.take(j + 1)) == (before_j, false));
                        lemma_terrain_run_stops(*self, ids@, j + 1);
                        lemma_missing_in_stays(*self, ids@, j + 1);
                    }
                    let mut d = "chunk with id ".to_owned();
                    d.append(decimal_string_usize(chunk_id).as_str());
                    d.append(" refers to terrain with id ");
                    let b = decimal_string_usize(tid);
                    d.append(b.as_str());
                    d.append(", but there is no terrain with id ");
                    d.append(b.as_str());
                    let e = PError::raised(ErrorKind::Invalid, d, "World::generate_collision_cache_and_damage_cache");
                    assert(texts(e.trace@) =~= seq![]);
                    return Err(e);
                },
            };
            match tags_for(&self.terrain_archetype_lookup, &self.terrain_archetype_tags_lookup, tid) {
                Some(tags) => {
                    cache_tags(tags, terrain, tid, coll, Ghost(base + before_j));
                    proof {
                        assert(base + before_j + tag_pushes(terrain, tid, tags@)
                            =~= base + (before_j + tag_pushes(terrain, tid, tags@)));
                    }
                },
                None => {},
            }
        }
        proof {
            assert(ids@.take(m as int) =~= ids@);
        }
        Ok(())
    }
}

/// Lists the tile `t`, kept under `id`, in the collision cache `coll` after
/// the records `base`, once for every `BlocksMovement` tag in `tags`.
#[verifier::loop_isolation(false)]
fn cache_tags(tags: &Vec<TerrainTags>, t: Terrain, id: usize, coll: &mut CellMap<Vec<usize>>, Ghost(base): Ghost<Seq<CachePush>>)
    requires
        cache_view(old(coll)@) == cache_after(Map::empty(), base),
    ensures
        cache_view(final(coll)@) == cache_after(Map::empty(), base + tag_pushes(t, id, tags@)),
{
    let nt = tags.len();
    proof {
        assert(tags@.take(0) =~= Seq::<TerrainTags>::empty());
        assert(base + Seq::<CachePush>::empty() =~= base);
    }
    for ti in 0..nt
        invariant
            cache_view(coll@) == cache_after(Map::empty(), base + tag_pushes(t, id, tags@.take(ti as int))),
    {
        proof {
            assert(tags@.take(ti + 1).drop_last() =~= tags@.take(ti as int));
        }
        if tags[ti] == TerrainTags::BlocksMovement {
            let tiles = World::get_terrain_tiles(t.x, t.y, 32, 32);
            let ghost pre = base + tag_pushes(t, id, tags@.take(ti as int));
            cache_push_tiles(coll, &tiles, id, Ghost(pre));
            proof {
                assert(pre + tile_pushes(tiles@, id) =~= base + tag_pushes(t, id, tags@.take(ti + 1)));
            }
        } else {
            proof {
                assert(base + tag_pushes(t, id, tags@.take(ti as int)) =~= base + tag_pushes(t, id, tags@.take(ti + 1)));
            }
        }
    }
    proof {
        assert(tags@.take(nt as int) =~= tags@);
    }
}

/// Lists the entities `ents` in the collision cache `coll` after the records
/// `bc` and in the damage cache `dmg` after the records `bd`.
#[verifier::loop_isolation(false)]
fn cache_entities(ents: &Vec<EntityBoxes>, coll: &mut CellMap<Vec<usize>>, dmg: &mut CellMap<Vec<usize>>,
    Ghost(bc): Ghost<Seq<CachePush>>, Ghost(bd): Ghost<Seq<CachePush>>)
    requires
        cache_view(old(coll)@) == cache_after(Map::empty(), bc),
        cache_view(old(dmg)@) == cache_after(Map::empty(), bd),
    ensures
        cache_view(final(coll)@) == cache_after(Map::empty(), bc + entity_pushes(ents@, true)),
        cache_view(final(dmg)@) == cache_after(Map::empty(), bd + entity_pushes(ents@, false)),
{
    let ne = ents.len();
    proof {
        assert(ents@.take(0) =~= Seq::<EntityBoxes>::empty());
        assert(bc + Seq::<CachePush>::empty() =~= bc);
        assert(bd + Seq::<CachePush>::empty() =~= bd);
    }
    for q in 0..ne
        invariant
            cache_view(coll@) == cache_after(Map::empty(), bc + entity_pushes(ents@.take(q as int), true)),
            cache_view(dmg@) == cache_after(Map::empty(), bd + entity_pushes(ents@.take(q as int), false)),
    {
        let e = ents[q];
        proof {
            assert(ents@.take(q + 1).drop_last() =~= ents@.take(q as int));
            assert(ents@.take(q + 1).last() == e);
        }
        match e.collision {
            Some((w, h)) => {
                let tiles = World::get_terrain_tiles(e.x, e.y, w, h);
                let ghost pre = bc + entity_pushes(ents@.take(q as int), true);
                cache_push_tiles(coll, &tiles, e.id, Ghost(pre));
                proof {
                    assert(pre + tile_pushes(tiles@, e.id) =~= bc + entity_pushes(ents@.take(q + 1), true));
                }
            },
            None => {
                proof {
                    assert(bc + entity_pushes(ents@.take(q as int), true) =~= bc + entity_pushes(ents@.take(q + 1), true));
                }
            },
        }
        match e.damage {
            Some((w, h)) => {
                let tiles = World::get_terrain_tiles(e.x, e.y, w, h);
                let ghost pre = bd + entity_pushes(ents@.take(q as int), false);
                cache_push_tiles(dmg, &tiles, e.id, Ghost(pre));
                proof {
                    assert(pre + tile_pushes(tiles@, e.id) =~= bd + entity_pushes(ents@.take(q + 1), false));
                }
            },
            None => {
                proof {
                    assert(bd + entity_pushes(ents@.take(q as int), false) =~= bd + entity_pushes(ents@.take(q + 1), false));
                }
            },
        }
    }
    proof {
        assert(ents@.take(ne as int) =~= ents@);
    }
}

} // verus!

verus! {

/// The ids that `cache` lists at the cells `tiles`, cell by cell, in order.
pub open spec fn listed_at(cache: Map<(usize, usize), Seq<usize>>, tiles: Seq<(usize, usize)>) -> Seq<usize>
    decreases tiles.len(),
{
    if tiles.len() == 0 {
        Seq::empty()
    } else {
        listed_at(cache, tiles.drop_last()) + if cache.contains_key(tiles.last()) { cache[tiles.last()] } else { Seq::empty() }
    }
}

/// Whether the 32-pixel square of the tile `t` and the rectangle at `(x, y)`,
/// `w` wide and `h` high, overlap (touching edges do not count).
pub open spec fn tile_overlaps(t: Terrain, x: int, y: int, w: int, h: int) -> bool {
    t.x < x + w && t.x + 32 > x && t.y < y + h && t.y + 32 > y
}

/// The ids listed at the cells `tiles` of `cache`, cell by cell, in order.
fn collect_listed(cache: &CellMap<Vec<usize>>, tiles: &Vec<(usize, usize)>) -> (r: Vec<usize>)
    ensures
        r@ == listed_at(cache_view(cache@), tiles@),
{
    let mut ids: Vec<usize> = Vec::new();
    let n = tiles.len();
    proof { assert(tiles@.take(0) =~= Seq::<(usize, usize)>::empty()); }
    for i in 0..n
        invariant
            n == tiles@.len(),
            ids@ == listed_at(cache_view(cache@), tiles@.take(i as int)),
    {
        proof {
            assert(tiles@.take(i + 1).drop_last() =~= tiles@.take(i as int));
        }
        match cell_map_get(cache, tiles[i]) {
            Some(entry) => {
                let ghost before = ids@;
                let m = entry.len();
                for j in 0..m
                    invariant
                        m == entry@.len(),
                        ids@ == before + entry@.take(j as int),
                {
                    ids.push(entry[j]);
                    proof { assert(entry@.take(j + 1) =~= entry@.take(j as int).push(entry@[j as int])); }
                }
                proof { assert(entry@.take(m as int) =~= entry@); }
            },
            None => {
                proof { assert(ids@ =~= ids@ + Seq::<usize>::empty()); }
            },
        }
    }
    proof { assert(tiles@.take(n as int) =~= tiles@); }
    ids
}

impl World {
    /// The ids that the collision cache lists at the cells the rectangle at
    /// `(x, y)`, `w` wide and `h` high, touches, cell by cell, in order; an id
    /// appears once for each time it is listed.
    pub fn collision_candidates(&self, x: usize, y: usize, w: usize, h: usize) -> (r: Vec<usize>)
        ensures
            r@ == listed_at(self.collision_view(), terrain_tiles(x, y, w, h)),
    {
        let tiles = World::get_terrain_tiles(x, y, w, h);
        collect_listed(&self.collision_cache, &tiles)
    }

    /// The ids that the damage cache lists at the cells the rectangle at
    /// `(x, y)`, `w` wide and `h` high, touches, each once, in the order in
    /// which they are first listed.
    pub fn damage_candidates(&self, x: usize, y: usize, w: usize, h: usize) -> (r: Vec<usize>)
        ensures
            r@.no_duplicates(),
            r@.to_set() == listed_at(self.damage_view(), terrain_tiles(x, y, w, h)).to_set(),
    {
        let tiles = World::get_terrain_tiles(x, y, w, h);
        let all = collect_listed(&self.damage_cache, &tiles);
        dedup(&all)
    }

    /// Whether the element `id` is a tile, and if so whether it overlaps the
    /// rectangle at `(x, y)`, `w` wide and `h` high.
    pub fn terrain_overlaps(&self, id: usize, x: usize, y: usize, w: usize, h: usize) -> (r: Option<bool>)
        ensures
            match r {
                Some(b) => self.terrain_view().contains_key(id)
                    && b == tile_overlaps(self.terrain_view()[id], x as int, y as int, w as int, h as int),
                None => !self.terrain_view().contains_key(id),
            },
    {
        match fx_get(&self.terrain, id) {
            Some(t) => {
                let left_ok = t.x < x || t.x - x < w;
                let right_ok = x < t.x || x - t.x < 32;
                let top_ok = t.y < y || t.y - y < h;
                let bot_ok = y < t.y || y - t.y < 32;
                Some(left_ok && right_ok && top_ok && bot_ok)
            },
            None => None,
        }
    }

    /// Whether a tile listed in the collision cache at the cells of the
    /// rectangle at `(x, y)`, `w` wide and `h` high, other than
    /// `id_to_ignore`, overlaps that rectangle.
    pub fn check_terrain_collision(&self, id_to_ignore: Option<usize>, x: usize, y: usize, w: usize, h: usize) -> (r: bool)
        ensures
            r == exists|k: int| {
                let c = #[trigger] listed_at(self.collision_view(), terrain_tiles(x, y, w, h))[k];
                &&& 0 <= k < listed_at(self.collision_view(), terrain_tiles(x, y, w, h)).len()
                &&& id_to_ignore != Some(c)
                &&& self.terrain_view().contains_key(c)
                &&& tile_overlaps(self.terrain_view()[c], x as int, y as int, w as int, h as int)
            },
    {
        let ids = self.collision_candidates(x, y, w, h);
        let ghost cands = listed_at(self.collision_view(), terrain_tiles(x, y, w, h));
        let n = ids.len();
        for i in 0..n
            invariant
                n == ids@.len(),
                ids@ == cands,
                cands == listed_at(self.collision_view(), terrain_tiles(x, y, w, h)),
                forall|k: int| 0 <= k < i ==> !({
                    let c = #[trigger] cands[k];
                    &&& id_to_ignore != Some(c)
                    &&& self.terrain_view().contains_key(c)
                    &&& tile_overlaps(self.terrain_view()[c], x as int, y as int, w as int, h as int)
                }),
        {
            let id = ids[i];
            let skip = match id_to_ignore {
                Some(ig) => ig == id,
                None => false,
            };
            if !skip {
                match self.terrain_overlaps(id, x, y, w, h) {
                    Some(true) => {
                        return true;
                    },
                    _ => {},
                }
            }
        }
        false
    }
}

/// The distinct elements of `v`, in the order of their first occurrence.
fn dedup(v: &Vec<usize>) -> (r: Vec<usize>)
    ensures
        r@.no_duplicates(),
        r@.to_set() == v@.to_set(),
{
    let mut out: Vec<usize> = Vec::new();
    let n = v.len();
    for i in 0..n
        invariant
            n == v@.len(),
            out@.no_duplicates(),
            out@.to_set() == v@.take(i as int).to_set(),
    {
        let x = v[i];
        let mut seen = false;
        let m = out.len();
        for j in 0..m
            invariant
                m == out@.len(),
                seen <==> exists|k: int| 0 <= k < j && out@[k] == x,
        {
            if out[j] == x {
                seen = true;
            }
        }
        proof {
            assert(v@.take(i + 1) =~= v@.take(i as int).push(x));
            assert(v@.take(i + 1).to_set() =~= v@.take(i as int).to_set().insert(x)) by {
                let p = v@.take(i as int);
                assert forall|e: usize| p.push(x).to_set().contains(e) <==> p.to_set().insert(x).contains(e) by {
                    if p.push(x).contains(e) && e != x {
                        let k = choose|k: int| 0 <= k < p.push(x).len() && p.push(x)[k] == e;
                        assert(p[k] == e);
                    }
                    if p.contains(e) {
                        let k = choose|k: int| 0 <= k < p.len() && p[k] == e;
                        assert(p.push(x)[k] == e);
                    }
                    if e == x {
                        assert(p.push(x)[p.len() as int] == x);
                    }
                }
            }
        }
        if !seen {
            let ghost before = out@;
            out.push(x);
            proof {
                assert(out@.to_set() =~= before.to_set().insert(x)) by {
                    assert forall|e: usize| out@.to_set().contains(e) <==> before.to_set().insert(x).contains(e) by {
                        if e == x {
                            assert(out@[before.len() as int] == x);
                        } else if out@.contains(e) {
                            let k = choose|k: int| 0 <= k < out@.len() && out@[k] == e;
                            assert(before[k] == e);
                        } else if before.contains(e) {
                            let k = choose|k: int| 0 <= k < before.len() && before[k] == e;
                            assert(out@[k] == e);
                        }
                    }
                }
            }
        } else {
            proof {
                let k = choose|k: int| 0 <= k < m && out@[k] == x;
                assert(out@.to_set().contains(x));
                assert(out@.to_set() =~= out@.to_set().insert(x));
            }
        }
    }
    proof { assert(v@.take(n as int) =~= v@); }
    out
}

} // verus!

verus! {

/// `a` and `b` agree in everything but their entity ids.
pub open spec fn same_but_entities(a: Chunk, b: Chunk) -> bool {
    &&& a.chunk_id == b.chunk_id
    &&& a.x == b.x
    &&& a.y == b.y
    &&& a.terrain_ids@ == b.terrain_ids@
}

/// `ids` without the id `id`.
pub open spec fn without(ids: Seq<usize>, id: usize) -> Seq<usize> {
    ids.filter(|x: usize| x != id)
}

/// `v` without the id `id`, in place.
fn remove_all(v: &mut Vec<usize>, id: usize)
    ensures
        final(v)@ == without(old(v)@, id),
{
    let mut out: Vec<usize> = Vec::new();
    let n = v.len();
    proof {
        reveal(Seq::filter);
        assert(v@.take(0) =~= Seq::<usize>::empty());
    }
    for i in 0..n
        invariant
            n == v@.len(),
            v@ == old(v)@,
            out@ == without(v@.take(i as int), id),
    {
        let x = v[i];
        proof {
            reveal(Seq::filter);
            assert(v@.take(i + 1) =~= v@.take(i as int).push(x));
            assert(v@.take(i + 1).drop_last() =~= v@.take(i as int));
        }
        if x != id {
            out.push(x);
        }
    }
    proof { assert(v@.take(n as int) =~= v@); }
    *v = out;
}

impl World {
    /// `self` is `old` after `add_entity(x, y)` returned `r`: the entity `r`
    /// is listed last in the chunk that holds `(x, y)`, which is new when
    /// there was none, and has the pathfinding frame that was next; the next
    /// frame moves on, cycling through 5.
    pub open spec fn entity_added(&self, old: &Self, x: usize, y: usize, r: usize) -> bool {
        &&& r == old.next_id()
        &&& self.next_id() == r + 1
        &&& self.frames() == old.frames().insert(r, old.next_frame())
        &&& self.next_frame() == (old.next_frame() + 1) % 5
        &&& self.frame() == old.frame()
        &&& self.kill_list() == old.kill_list()
        &&& self.terrain_view() == old.terrain_view()
        &&& ({
            let cell = chunk_cell(x, y);
            let c = self.lookup()[cell];
            let old_len = old.chunks_view().len();
            &&& self.lookup() == old.lookup().insert(cell, c)
            &&& old.lookup().contains_key(cell) ==> {
                    &&& c == old.lookup()[cell]
                    &&& self.chunks_view().len() == old_len
                    &&& self.chunks_view()[c as int].entities_ids@ == old.chunks_view()[c as int].entities_ids@.push(r)
                    &&& same_but_entities(self.chunks_view()[c as int], old.chunks_view()[c as int])
                }
            &&& !old.lookup().contains_key(cell) ==> {
                    &&& c == old_len
                    &&& self.chunks_view().len() == old_len + 1
                    &&& self.chunks_view()[c as int].chunk_id == c
                    &&& self.chunks_view()[c as int].x == cell.0
                    &&& self.chunks_view()[c as int].y == cell.1
                    &&& self.chunks_view()[c as int].entities_ids@ == seq![r]
                    &&& self.chunks_view()[c as int].terrain_ids@.len() == 0
                }
            &&& forall|i: int| 0 <= i < old_len && i != c ==> #[trigger] self.chunks_view()[i] == old.chunks_view()[i]
        })
        &&& self.same_tables(old)
    }

    /// Adds an entity whose position is the pixel `(x, y)` and returns its id:
    /// it goes into the chunk that holds `(x, y)`, which is made first when
    /// there is none, and gets the next pathfinding frame.
    pub fn add_entity(&mut self, x: usize, y: usize) -> (r: usize)
        requires
            old(self).wf(),
            old(self).next_id() < usize::MAX,
        ensures
            final(self).wf(),
            final(self).entity_added(old(self), x, y, r),
    {
        let frame = self.next_pathfinding_frame_for_entity;
        self.next_pathfinding_frame_for_entity = (frame + 1) % 5;
        let cx = World::coord_to_chunk_coord(x);
        let cy = World::coord_to_chunk_coord(y);
        let chunk_id = match self.get_chunk_from_chunk_xy(cx, cy) {
            Some(c) => c,
            None => self.new_chunk(cx, cy),
        };
        let ghost mid = self.chunks@;
        let id = self.element_id;
        self.element_id = id + 1;
        self.chunks[chunk_id].entities_ids.push(id);
        fx_insert(&mut self.pathfinding_frames, id, frame);
        proof {
            assert forall|i: int, j: int| 0 <= i < self.chunks@.len() && 0 <= j < self.chunks@[i].terrain_ids@.len()
                implies #[trigger] self.chunks@[i].terrain_ids@[j] < self.element_id by {
                assert(self.chunks@[i].terrain_ids@ == mid[i].terrain_ids@);
                assert(mid[i].terrain_ids@[j] < self.element_id - 1);
            }
            assert forall|i: int| 0 <= i < self.chunks@.len() implies #[trigger] self.chunks@[i].chunk_id == i by {
                if i != chunk_id {
                    assert(self.chunks@[i] == mid[i]);
                }
            }
            assert forall|c: (usize, usize)| #[trigger] self.chunk_lookup@.contains_key(c) implies {
                &&& self.chunk_lookup@[c] < self.chunks@.len()
                &&& self.chunks@[self.chunk_lookup@[c] as int].x == c.0
                &&& self.chunks@[self.chunk_lookup@[c] as int].y == c.1
            } by {
                let k = self.chunk_lookup@[c] as int;
                if k != chunk_id {
                    assert(self.chunks@[k] == mid[k]);
                }
            }
            assert(self.chunk_lookup@ =~= old(self).chunk_lookup@.insert((cx, cy), chunk_id));
            assert(chunk_cell(x, y) == (cx, cy));
            if !old(self).chunk_lookup@.contains_key((cx, cy)) {
                assert(self.chunks@[chunk_id as int].entities_ids@ =~= seq![id]);
            }
        }
        id
    }
}

} // verus!

verus! {

/// The cells a 32-pixel entity at `(ox, oy)` covers and no longer covers at `(nx, ny)`.
pub open spec fn moved_off(ox: usize, oy: usize, nx: usize, ny: usize) -> Set<(usize, usize)> {
    terrain_tiles(ox, oy, 32, 32).to_set().difference(terrain_tiles(nx, ny, 32, 32).to_set())
}

/// `cache` with `id` taken out of the lists of the cells `cells`.
pub open spec fn cache_without(cache: Map<(usize, usize), Seq<usize>>, cells: Set<(usize, usize)>, id: usize) -> Map<(usize, usize), Seq<usize>> {
    Map::new(|c: (usize, usize)| cache.contains_key(c), |c: (usize, usize)| if cells.contains(c) { without(cache[c], id) } else { cache[c] })
}

proof fn lemma_without_twice(s: Seq<usize>, id: usize)
    ensures
        without(without(s, id), id) == without(s, id),
    decreases s.len(),
{
    reveal(Seq::filter);
    if s.len() > 0 {
        lemma_without_twice(s.drop_last(), id);
        if s.last() != id {
            assert(without(s, id).drop_last() =~= without(s.drop_last(), id));
        }
    }
}

/// Whether `v` holds `t`.
fn tiles_contain(v: &Vec<(usize, usize)>, t: (usize, usize)) -> (r: bool)
    ensures
        r == v@.contains(t),
{
    let n = v.len();
    for i in 0..n
        invariant
            n == v@.len(),
            forall|j: int| 0 <= j < i ==> v@[j] != t,
    {
        let (a, b) = v[i];
        if a == t.0 && b == t.1 {
            return true;
        }
    }
    false
}

/// Takes `id` out of the lists of `cache` at the cells that a 32-pixel
/// square at `(ox, oy)` covers and one at `(nx, ny)` does not.
fn cache_remove_moved(cache: &mut CellMap<Vec<usize>>, id: usize, ox: usize, oy: usize, nx: usize, ny: usize)
    ensures
        cache_view(final(cache)@) == cache_without(cache_view(old(cache)@), moved_off(ox, oy, nx, ny), id),
{
    let prev_tiles = World::get_terrain_tiles(ox, oy, 32, 32);
    let new_tiles = World::get_terrain_tiles(nx, ny, 32, 32);
    let ghost base = cache_view(cache@);
    let ghost nts = new_tiles@.to_set();
    let n = prev_tiles.len();
    proof {
        assert(prev_tiles@.take(0).to_set().difference(nts) =~= Set::empty());
        assert(cache_view(cache@) =~= cache_without(base, prev_tiles@.take(0).to_set().difference(nts), id));
    }
    for i in 0..n
        invariant
            n == prev_tiles@.len(),
            nts == new_tiles@.to_set(),
            base == cache_view(old(cache)@),
            cache_view(cache@) == cache_without(base, prev_tiles@.take(i as int).to_set().difference(nts), id),
    {
        let t = prev_tiles[i];
        let ghost before = prev_tiles@.take(i as int).to_set().difference(nts);
        let ghost after = prev_tiles@.take(i + 1).to_set().difference(nts);
        proof {
            let a = prev_tiles@.take(i as int);
            assert(prev_tiles@.take(i + 1) =~= a.push(t));
            assert forall|c: (usize, usize)| a.push(t).to_set().contains(c) <==> a.to_set().insert(t).contains(c) by {
                if a.push(t).contains(c) && c != t {
                    let k = choose|k: int| 0 <= k < a.push(t).len() && a.push(t)[k] == c;
                    assert(a[k] == c);
                }
                if a.contains(c) {
                    let k = choose|k: int| 0 <= k < a.len() && a[k] == c;
                    assert(a.push(t)[k] == c);
                }
                if c == t {
                    assert(a.push(t)[a.len() as int] == t);
                }
            }
            assert(a.push(t).to_set() =~= a.to_set().insert(t));
        }
        if !tiles_contain(&new_tiles, t) {
            let ghost c0 = cache_view(cache@);
            match cell_map_get_mut(cache, t) {
                Some(entry) => {
                    remove_all(entry, id);
                    proof {
                        assert(cache_view(cache@) =~= c0.insert(t, without(c0[t], id)));
                    }
                },
                None => {
                    proof {
                        assert(!c0.contains_key(t));
                    }
                },
            }
            proof {
                assert(!nts.contains(t)) by {
                    if nts.contains(t) {
                        assert(new_tiles@.contains(t));
                    }
                }
                assert(after =~= before.insert(t));
                if base.contains_key(t) {
                    if before.contains(t) {
                        lemma_without_twice(base[t], id);
                    }
                    assert(without(c0[t], id) == without(base[t], id));
                    assert(c0.insert(t, without(c0[t], id)) =~= cache_without(base, after, id));
                } else {
                    assert(c0 =~= cache_without(base, after, id));
                }
                assert(cache_view(cache@) =~= cache_without(base, after, id));
            }
        } else {
            proof {
                assert(nts.contains(t));
                assert(after =~= before);
            }
        }
    }
    proof {
        assert(prev_tiles@.take(n as int) =~= prev_tiles@);
    }
}

impl World {
    /// Moves the entity `entity_id` of the grid from the pixel `(old_x, old_y)`
    /// to `(new_x, new_y)`. When it has collision, it is taken out of the
    /// collision cache at the cells its 32-pixel square no longer covers.
    /// When the chunk of its new position (made first when there is none)
    /// differs from that of its old one, it leaves the old chunk's list and
    /// joins the end of the new one's. Fails with `UnwrapFailure` when no
    /// chunk holds the old position; the world is then unchanged.
    pub fn relocate_entity(&mut self, entity_id: usize, old_x: usize, old_y: usize, new_x: usize, new_y: usize, has_collision: bool) -> (r: Result<(), PError>)
        requires
            old(self).wf(),
        ensures
            final(self).wf(),
            final(self).same_entities(old(self)),
            final(self).terrain_view() == old(self).terrain_view(),
            final(self).next_id() == old(self).next_id(),
            final(self).archetypes() == old(self).archetypes(),
            final(self).tags_view() == old(self).tags_view(),
            final(self).sprites_view() == old(self).sprites_view(),
            final(self).loaded() == old(self).loaded(),
            final(self).damage_view() == old(self).damage_view(),
            r is Ok <==> old(self).lookup().contains_key(chunk_cell(old_x, old_y)),
            r is Err ==> (r matches Err(e) && caused_as(e, ErrorKind::UnwrapFailure, "entity with id "@ + decimal(entity_id as nat) + " doesn't have a current chunk?"@, "World::move_entity"@, seq![]))
                && final(self).same_grid(old(self))
                && final(self).collision_view() == old(self).collision_view(),
            r is Ok ==> final(self).entity_relocated(old(self), entity_id, old_x, old_y, new_x, new_y, has_collision),
    {
        let prev = match self.get_chunk_from_xy(old_x, old_y) {
            Some(c) => c,
            None => {
                let mut d = "entity with id ".to_owned();
                let n = decimal_string_usize(entity_id);
                d.append(n.as_str());
                d.append(" doesn't have a current chunk?");
                let e = PError::raised(ErrorKind::UnwrapFailure, d, "World::move_entity");
                assert(texts(e.trace@) =~= seq![]);
                return Err(e);
            },
        };
        if has_collision {
            cache_remove_moved(&mut self.collision_cache, entity_id, old_x, old_y, new_x, new_y);
        }
        let ghost mid = *self;
        let cx = World::coord_to_chunk_coord(new_x);
        let cy = World::coord_to_chunk_coord(new_y);
        let next = match self.get_chunk_from_chunk_xy(cx, cy) {
            Some(c) => c,
            None => self.new_chunk(cx, cy),
        };
        let ghost mid2 = self.chunks@;
        if next != prev {
            remove_all(&mut self.chunks[prev].entities_ids, entity_id);
            self.chunks[next].entities_ids.push(entity_id);
        }
        proof {
            assert forall|i: int, j: int| 0 <= i < self.chunks@.len() && 0 <= j < self.chunks@[i].terrain_ids@.len()
                implies #[trigger] self.chunks@[i].terrain_ids@[j] < self.element_id by {
                assert(self.chunks@[i].terrain_ids@ == mid2[i].terrain_ids@);
                assert(mid2[i].terrain_ids@[j] < self.element_id);
            }
            assert forall|i: int| 0 <= i < self.chunks@.len() implies #[trigger] self.chunks@[i].chunk_id == i by {
                assert(self.chunks@[i].chunk_id == mid2[i].chunk_id);
            }
            assert forall|c: (usize, usize)| #[trigger] self.chunk_lookup@.contains_key(c) implies {
                &&& self.chunk_lookup@[c] < self.chunks@.len()
                &&& self.chunks@[self.chunk_lookup@[c] as int].x == c.0
                &&& self.chunks@[self.chunk_lookup@[c] as int].y == c.1
            } by {
                let k = self.chunk_lookup@[c] as int;
                assert(self.chunks@[k].x == mid2[k].x && self.chunks@[k].y == mid2[k].y);
            }
            assert(self.chunk_lookup@ =~= old(self).chunk_lookup@.insert((cx, cy), next));
            assert(chunk_cell(new_x, new_y) == (cx, cy));
            if next != prev && !old(self).chunk_lookup@.contains_key((cx, cy)) {
                assert(self.chunks@[next as int].entities_ids@ =~= seq![entity_id]);
            }
        }
        Ok(())
    }

    /// `self` is `old` after a successful `relocate_entity` of the entity `id`
    /// from `(ox, oy)` to `(nx, ny)` (see [`Self::relocate_entity`]).
    pub open spec fn entity_relocated(&self, old: &Self, id: usize, ox: usize, oy: usize, nx: usize, ny: usize, has_collision: bool) -> bool {
        let p = old.lookup()[chunk_cell(ox, oy)];
        let ncell = chunk_cell(nx, ny);
        let q = self.lookup()[ncell];
        let old_len = old.chunks_view().len();
        &&& self.collision_view() == if has_collision {
                cache_without(old.collision_view(), moved_off(ox, oy, nx, ny), id)
            } else {
                old.collision_view()
            }
        &&& self.lookup() == old.lookup().insert(ncell, q)
        &&& old.lookup().contains_key(ncell) ==> q == old.lookup()[ncell] && self.chunks_view().len() == old_len
        &&& !old.lookup().contains_key(ncell) ==> {
                &&& q == old_len
                &&& self.chunks_view().len() == old_len + 1
                &&& self.chunks_view()[q as int].chunk_id == q
                &&& self.chunks_view()[q as int].x == ncell.0
                &&& self.chunks_view()[q as int].y == ncell.1
                &&& self.chunks_view()[q as int].terrain_ids@.len() == 0
                &&& self.chunks_view()[q as int].entities_ids@ == seq![id]
            }
        &&& q != p ==> {
                &&& self.chunks_view()[p as int].entities_ids@ == without(old.chunks_view()[p as int].entities_ids@, id)
                &&& same_but_entities(self.chunks_view()[p as int], old.chunks_view()[p as int])
            }
        &&& q != p && old.lookup().contains_key(ncell) ==> {
                &&& self.chunks_view()[q as int].entities_ids@ == old.chunks_view()[q as int].entities_ids@.push(id)
                &&& same_but_entities(self.chunks_view()[q as int], old.chunks_view()[q as int])
            }
        &&& q == p ==> self.chunks_view()[p as int] == old.chunks_view()[p as int]
        &&& forall|i: int| 0 <= i < old_len && i != p && i != q ==> #[trigger] self.chunks_view()[i] == old.chunks_view()[i]
    }
}

} // verus!

verus! {

/// The entity ids of the chunks `ids` (by chunk id), chunk after chunk.
pub open spec fn entities_of(chunks: Seq<Chunk>, ids: Seq<usize>) -> Seq<usize>
    decreases ids.len(),
{
    if ids.len() == 0 {
        Seq::empty()
    } else {
        entities_of(chunks, ids.drop_last()) + chunks[ids.last() as int].entities_ids@
    }
}

/// Whether `s` is in ascending order.
pub open spec fn ascending(s: Seq<usize>) -> bool {
    forall|i: int, j: int| 0 <= i <= j < s.len() ==> s[i] <= s[j]
}

/// `v` in ascending order.
fn sort_ids(v: Vec<usize>) -> (r: Vec<usize>)
    ensures
        ascending(r@),
        r@.to_multiset() == v@.to_multiset(),
{
    broadcast use vstd::seq_lib::group_to_multiset_ensures;
    let mut out: Vec<usize> = Vec::new();
    let n = v.len();
    proof { assert(v@.take(0) =~= Seq::<usize>::empty()); }
    for i in 0..n
        invariant
            n == v@.len(),
            ascending(out@),
            out@.to_multiset() == v@.take(i as int).to_multiset(),
    {
        let x = v[i];
        let mut k: usize = 0;
        while k < out.len() && out[k] <= x
            invariant
                k <= out@.len(),
                forall|j: int| 0 <= j < k ==> out@[j] <= x,
            decreases out@.len() - k,
        {
            k = k + 1;
        }
        let ghost before = out@;
        out.insert(k, x);
        proof {
            assert(out@ =~= before.insert(k as int, x));
            assert forall|a: int, b: int| 0 <= a <= b < out@.len() implies out@[a] <= out@[b] by {
                if a < k as int && b < k as int {
                    assert(out@[a] == before[a] && out@[b] == before[b]);
                } else if a < k as int && b == k as int {
                    assert(out@[a] == before[a]);
                } else if a < k as int {
                    assert(out@[a] == before[a] && out@[b] == before[b - 1]);
                } else if a == k as int && b > k as int {
                    assert(out@[b] == before[b - 1]);
                    assert(k < before.len());
                } else if a > k as int {
                    assert(out@[a] == before[a - 1] && out@[b] == before[b - 1]);
                }
            }
            vstd::seq_lib::to_multiset_insert(before, k as int, x);
            assert(v@.take(i + 1) =~= v@.take(i as int).push(x));
            vstd::seq_lib::to_multiset_build(v@.take(i as int), x);
            assert(out@.to_multiset() =~= v@.take(i + 1).to_multiset());
        }
    }
    proof { assert(v@.take(n as int) =~= v@); }
    out
}

impl World {
    /// The entities of the loaded chunks, in ascending order of id (an id
    /// listed twice appears twice).
    pub fn loaded_entities(&self) -> (r: Vec<usize>)
        requires
            forall|k: int| 0 <= k < self.loaded().len() ==> #[trigger] self.loaded()[k] < self.chunks_view().len(),
        ensures
            ascending(r@),
            r@.to_multiset() == entities_of(self.chunks_view(), self.loaded()).to_multiset(),
    {
        let mut all: Vec<usize> = Vec::new();
        let n = self.loaded_chunks.len();
        proof {
            assert(self.loaded_chunks@.take(0) =~= Seq::<usize>::empty());
            assert forall|q: int| 0 <= q < n implies #[trigger] self.loaded_chunks@[q] < self.chunks@.len() by {
                assert(self.loaded()[q] < self.chunks_view().len());
            }
        }
        for k in 0..n
            invariant
                n == self.loaded_chunks@.len(),
                forall|q: int| 0 <= q < n ==> #[trigger] self.loaded_chunks@[q] < self.chunks@.len(),
                all@ == entities_of(self.chunks@, self.loaded_chunks@.take(k as int)),
        {
            let c = self.loaded_chunks[k];
            let ghost before = all@;
            let m = self.chunks[c].entities_ids.len();
            for j in 0..m
                invariant
                    m == self.chunks@[c as int].entities_ids@.len(),
                    c < self.chunks@.len(),
                    all@ == before + self.chunks@[c as int].entities_ids@.take(j as int),
            {
                all.push(self.chunks[c].entities_ids[j]);
                proof {
                    let e = self.chunks@[c as int].entities_ids@;
                    assert(e.take(j + 1) =~= e.take(j as int).push(e[j as int]));
                }
            }
            proof {
                let e = self.chunks@[c as int].entities_ids@;
                assert(e.take(m as int) =~= e);
                assert(self.loaded_chunks@.take(k + 1).drop_last() =~= self.loaded_chunks@.take(k as int));
            }
        }
        proof { assert(self.loaded_chunks@.take(n as int) =~= self.loaded_chunks@); }
        sort_ids(all)
    }

    /// Marks the entity `entity_id` to be removed at the end of the frame.
    pub fn kill_entity(&mut self, entity_id: usize)
        requires
            old(self).wf(),
        ensures
            final(self).wf(),
            final(self).kill_list() == old(self).kill_list().push(entity_id),
            final(self).frames() == old(self).frames(),
            final(self).next_frame() == old(self).next_frame(),
            final(self).frame() == old(self).frame(),
            final(self).same_grid(old(self)),
            final(self).same_tables(old(self)),
    {
        self.entities_to_be_killed_at_end_of_frame.push(entity_id);
    }

    /// The entities marked to be removed at the end of the frame, in the order they were marked.
    pub fn entities_to_be_killed(&self) -> (r: &Vec<usize>)
        ensures
            r@ == self.kill_list(),
    {
        &self.entities_to_be_killed_at_end_of_frame
    }

    /// Forgets the entities marked to be removed.
    pub fn clear_kill_list(&mut self)
        requires
            old(self).wf(),
        ensures
            final(self).wf(),
            final(self).kill_list().len() == 0,
            final(self).frames() == old(self).frames(),
            final(self).next_frame() == old(self).next_frame(),
            final(self).frame() == old(self).frame(),
            final(self).same_grid(old(self)),
            final(self).same_tables(old(self)),
    {
        self.entities_to_be_killed_at_end_of_frame = Vec::new();
    }

    /// Moves on to the next pathfinding frame, cycling through 5.
    pub fn advance_pathfinding_frame(&mut self)
        requires
            old(self).wf(),
        ensures
            final(self).wf(),
            final(self).frame() == (old(self).frame() + 1) % 5,
            final(self).frames() == old(self).frames(),
            final(self).next_frame() == old(self).next_frame(),
            final(self).kill_list() == old(self).kill_list(),
            final(self).same_grid(old(self)),
            final(self).same_tables(old(self)),
    {
        self.pathfinding_frame = (self.pathfinding_frame + 1) % 5;
    }

    /// Whether the entity `entity_id` looks for a path this frame: it has a
    /// pathfinding frame and that frame is the current one.
    pub fn pathfinds_this_frame(&self, entity_id: usize) -> (r: bool)
        ensures
            r == (self.frames().contains_key(entity_id) && self.frames()[entity_id] == self.frame()),
    {
        match fx_get(&self.pathfinding_frames, entity_id) {
            Some(f) => *f == self.pathfinding_frame,
            None => false,
        }
    }

    /// Takes the entity `entity_id`, whose position is the pixel `(x, y)`,
    /// out of the chunk that holds that position (its first occurrence
    /// there). Fails with `Invalid` when no chunk holds the position; the
    /// world is then unchanged. The entity must be listed in that chunk.
    pub fn remove_entity(&mut self, entity_id: usize, x: usize, y: usize) -> (r: Result<(), PError>)
        requires
            old(self).wf(),
            old(self).lookup().contains_key(chunk_cell(x, y)) ==>
                old(self).chunks_view()[old(self).lookup()[chunk_cell(x, y)] as int].entities_ids@.contains(entity_id),
        ensures
            final(self).wf(),
            final(self).same_entities(old(self)),
            final(self).same_tables(old(self)),
            final(self).terrain_view() == old(self).terrain_view(),
            final(self).next_id() == old(self).next_id(),
            final(self).lookup() == old(self).lookup(),
            final(self).chunks_view().len() == old(self).chunks_view().len(),
            r is Ok <==> old(self).lookup().contains_key(chunk_cell(x, y)),
            r is Err ==> (r matches Err(e) && caused_as(e, ErrorKind::Invalid, "there is no chunk at the position of the entity?"@, "World::remove_entity"@, seq![]))
                && final(self).chunks_view() == old(self).chunks_view(),
            r is Ok ==> ({
                let c = old(self).lookup()[chunk_cell(x, y)] as int;
                let ids = old(self).chunks_view()[c].entities_ids@;
                &&& final(self).chunks_view()[c].entities_ids@ == ids.remove(ids.index_of_first(entity_id)->0)
                &&& same_but_entities(final(self).chunks_view()[c], old(self).chunks_view()[c])
                &&& forall|i: int| 0 <= i < old(self).chunks_view().len() && i != c
                        ==> #[trigger] final(self).chunks_view()[i] == old(self).chunks_view()[i]
            }),
    {
        let chunk_id = match self.get_chunk_from_xy(x, y) {
            Some(c) => c,
            None => {
                let e = PError::raised(ErrorKind::Invalid, "there is no chunk at the position of the entity?".to_owned(),
                    "World::remove_entity");
                assert(texts(e.trace@) =~= seq![]);
                return Err(e);
            },
        };
        proof { self.chunks@[chunk_id as int].entities_ids@.index_of_first_ensures(entity_id); }
        let index = match position_of(&self.chunks[chunk_id].entities_ids, entity_id) {
            Some(i) => i,
            None => {
                proof { assert(false); }
                return Ok(());
            },
        };
        let ghost before = self.chunks@;
        self.chunks[chunk_id].entities_ids.remove(index);
        proof {
            assert forall|i: int, j: int| 0 <= i < self.chunks@.len() && 0 <= j < self.chunks@[i].terrain_ids@.len()
                implies #[trigger] self.chunks@[i].terrain_ids@[j] < self.element_id by {
                assert(self.chunks@[i].terrain_ids@ == before[i].terrain_ids@);
                assert(before[i].terrain_ids@[j] < self.element_id);
            }
            assert forall|i: int| 0 <= i < self.chunks@.len() implies #[trigger] self.chunks@[i].chunk_id == i by {
                assert(self.chunks@[i].chunk_id == before[i].chunk_id);
            }
            assert forall|c: (usize, usize)| #[trigger] self.chunk_lookup@.contains_key(c) implies {
                &&& self.chunk_lookup@[c] < self.chunks@.len()
                &&& self.chunks@[self.chunk_lookup@[c] as int].x == c.0
                &&& self.chunks@[self.chunk_lookup@[c] as int].y == c.1
            } by {
                let k = self.chunk_lookup@[c] as int;
                assert(self.chunks@[k].x == before[k].x && self.chunks@[k].y == before[k].y);
            }
        }
        Ok(())
    }
}

} // verus!

verus! {

impl World {
    /// The chunk with id `chunk_id`, if there is one.
    pub fn get_chunk(&self, chunk_id: usize) -> (r: Option<&Chunk>)
        ensures
            match r {
                Some(c) => chunk_id < self.chunks_view().len() && *c == self.chunks_view()[chunk_id as int],
                None => chunk_id >= self.chunks_view().len(),
            },
    {
        if chunk_id < self.chunks.len() {
            Some(&self.chunks[chunk_id])
        } else {
            None
        }
    }

    /// The ids of the loaded chunks.
    pub fn loaded_chunks(&self) -> (r: &Vec<usize>)
        ensures
            r@ == self.loaded(),
    {
        &self.loaded_chunks
    }
}

} // verus!

verus! {

/// The corner of the `k`-th tile of a block of tiles `height` tiles high
/// starting at the tile `(start_x, start_y)`, filled column by column.
pub open spec fn block_corner(start_x: usize, start_y: usize, height: usize, k: int) -> (int, int) {
    ((start_x + k / (height as int)) * 32, (start_y + k % (height as int)) * 32)
}

/// The tiles with ids from `first` to `first + n - 1`, the `k`-th with the corner `block_corner(.., k)`.
pub open spec fn block_tiles(first: usize, n: int, start_x: usize, start_y: usize, height: usize) -> Map<usize, Terrain> {
    Map::new(
        |id: usize| first <= id < first + n,
        |id: usize| Terrain {
            element_id: id,
            x: block_corner(start_x, start_y, height, id - first).0 as usize,
            y: block_corner(start_x, start_y, height, id - first).1 as usize,
        },
    )
}

/// The map that gives `v` to every id from `first` to `first + n - 1`.
pub open spec fn same_for_range<V>(first: usize, n: int, v: V) -> Map<usize, V> {
    Map::new(|id: usize| first <= id < first + n, |id: usize| v)
}

impl World {
    /// Whether every tile of `tiles` is listed in the chunk that the lookup
    /// gives for its corner.
    pub open spec fn all_listed(&self, tiles: Map<usize, Terrain>) -> bool {
        forall|id: usize| #[trigger] tiles.contains_key(id) ==> {
            let cell = chunk_cell(tiles[id].x, tiles[id].y);
            &&& self.lookup().contains_key(cell)
            &&& self.chunks_view()[self.lookup()[cell] as int].terrain_ids@.contains(id)
        }
    }

    /// Every chunk of `old` is still there, with its coordinates and
    /// entities, and lists what it listed, maybe followed by more tiles;
    /// the lookup still finds it.
    pub open spec fn grid_grows(&self, old: &Self) -> bool {
        &&& self.chunks_view().len() >= old.chunks_view().len()
        &&& forall|i: int| 0 <= i < old.chunks_view().len() ==> {
                &&& same_but_terrain(#[trigger] self.chunks_view()[i], old.chunks_view()[i])
                &&& self.chunks_view()[i].terrain_ids@.take(old.chunks_view()[i].terrain_ids@.len() as int)
                        == old.chunks_view()[i].terrain_ids@
                &&& self.chunks_view()[i].terrain_ids@.len() >= old.chunks_view()[i].terrain_ids@.len()
            }
        &&& forall|c: (usize, usize)| #[trigger] old.lookup().contains_key(c) ==> self.lookup().contains_key(c) && self.lookup()[c] == old.lookup()[c]
    }

    /// Fills a block of `width` by `height` tiles whose first tile is the
    /// tile `(start_x, start_y)` (in 32-pixel units), column by column, each
    /// with the sprite `sprite` and the archetype `archetype`. When there is
    /// no sprite (its name, `sprite_name`, named none), the first tile is
    /// placed and the filling fails with `Invalid`.
    pub fn fill_terrain(&mut self, start_x: usize, start_y: usize, width: usize, height: usize, sprite: Option<usize>, sprite_name: &str, archetype: String) -> (r: Result<(), PError>)
        requires
            old(self).wf(),
            old(self).next_id() + width * height <= usize::MAX,
            (start_x + width) * 32 <= usize::MAX,
            (start_y + height) * 32 <= usize::MAX,
        ensures
            final(self).wf(),
            ({
                let first = old(self).next_id();
                let n: int = if sprite is None && width * height > 0 { 1 } else { width * height };
                let tiles = block_tiles(first, n, start_x, start_y, height);
                &&& (r is Err <==> (sprite is None && width * height > 0))
                &&& (r matches Err(e) ==> caused_as(e, ErrorKind::Invalid,
                        "Could not find sprite: "@ + sprite_name@ + " while generating world from json data"@,
                        "World::generate_terrain_from_descriptor"@, seq![]))
                &&& final(self).next_id() == first + n
                &&& final(self).terrain_view() == old(self).terrain_view().union_prefer_right(tiles)
                &&& final(self).all_listed(tiles)
                &&& final(self).grid_grows(old(self))
                &&& final(self).sprites_view() == match sprite {
                        Some(s) => old(self).sprites_view().union_prefer_right(same_for_range(first, n, s)),
                        None => old(self).sprites_view(),
                    }
                &&& final(self).archetypes() == match sprite {
                        Some(_) => old(self).archetypes().union_prefer_right(same_for_range(first, n, archetype)),
                        None => old(self).archetypes(),
                    }
            }),
            final(self).same_entities(old(self)),
            final(self).tags_view() == old(self).tags_view(),
            final(self).loaded() == old(self).loaded(),
            final(self).collision_view() == old(self).collision_view(),
            final(self).damage_view() == old(self).damage_view(),
    {
        let ghost first = self.element_id;
        if width == 0 || height == 0 {
            proof {
                assert(width * height == 0) by (nonlinear_arith)
                    requires width == 0 || height == 0;
                let tiles = block_tiles(first, 0, start_x, start_y, height);
                assert(tiles =~= Map::empty());
                assert(self.terrain@ =~= self.terrain@.union_prefer_right(tiles));
                assert(self.sprites_view() =~= self.sprites_view().union_prefer_right(same_for_range(first, 0, 0usize)));
                assert(self.terrain_archetype_lookup@ =~= self.terrain_archetype_lookup@.union_prefer_right(same_for_range(first, 0, archetype)));
                assert forall|i: int| 0 <= i < self.chunks@.len() implies
                    #[trigger] self.chunks@[i].terrain_ids@.take(self.chunks@[i].terrain_ids@.len() as int) == self.chunks@[i].terrain_ids@ by {
                    assert(self.chunks@[i].terrain_ids@.take(self.chunks@[i].terrain_ids@.len() as int) =~= self.chunks@[i].terrain_ids@);
                }
            }
            return Ok(());
        }
        let total = width * height;
        let s = match sprite {
            Some(s) => s,
            None => {
                let ghost wa = *self;
                proof {
                    assert(self.terrain_view() =~= old(self).terrain_view().union_prefer_right(block_tiles(first, 0, start_x, start_y, height)));
                    assert(self.all_listed(block_tiles(first, 0, start_x, start_y, height)));
                    lemma_grid_grows_refl(*self);
                    assert(width * height >= 1) by (nonlinear_arith)
                        requires width > 0, height > 0;
                    assert((start_x + 0) * 32 <= (start_x + width) * 32) by (nonlinear_arith)
                        requires width > 0;
                    assert((start_y + 0) * 32 <= (start_y + height) * 32) by (nonlinear_arith)
                        requires height > 0;
                }
                self.add_terrain(start_x * 32, start_y * 32);
                proof {
                    lemma_fill_add(*old(self), wa, *self, first, 0, start_x, start_y, height);
                    assert(self.sprites_view() == old(self).sprites_view());
                }
                let mut d = "Could not find sprite: ".to_owned();
                d.append(sprite_name);
                d.append(" while generating world from json data");
                let e = PError::raised(ErrorKind::Invalid, d, "World::generate_terrain_from_descriptor");
                assert(texts(e.trace@) =~= seq![]);
                return Err(e);
            },
        };
        let mut k: usize = 0;
        proof {
            assert(self.terrain_view() =~= old(self).terrain_view().union_prefer_right(block_tiles(first, 0, start_x, start_y, height)));
            assert(self.all_listed(block_tiles(first, 0, start_x, start_y, height)));
            lemma_grid_grows_refl(*self);
            assert(self.sprites_view() =~= old(self).sprites_view().union_prefer_right(same_for_range(first, 0, s)));
            assert(self.archetypes() =~= old(self).archetypes().union_prefer_right(same_for_range(first, 0, archetype)));
        }
        while k < total
            invariant
                total == width * height,
                width > 0,
                height > 0,
                k <= total,
                first == old(self).next_id(),
                first + total <= usize::MAX,
                (start_x + width) * 32 <= usize::MAX,
                (start_y + height) * 32 <= usize::MAX,
                self.wf(),
                self.next_id() == first + k,
                self.terrain_view() == old(self).terrain_view().union_prefer_right(block_tiles(first, k as int, start_x, start_y, height)),
                self.all_listed(block_tiles(first, k as int, start_x, start_y, height)),
                self.grid_grows(old(self)),
                self.sprites_view() == old(self).sprites_view().union_prefer_right(same_for_range(first, k as int, s)),
                self.archetypes() == old(self).archetypes().union_prefer_right(same_for_range(first, k as int, archetype)),
                self.same_entities(old(self)),
                self.tags_view() == old(self).tags_view(),
                self.loaded() == old(self).loaded(),
                self.collision_view() == old(self).collision_view(),
                self.damage_view() == old(self).damage_view(),
            decreases total - k,
        {
            proof {
                assert(k / height < width) by (nonlinear_arith)
                    requires k < width * height, height > 0;
                assert(k % height < height) by (nonlinear_arith)
                    requires height > 0;
                assert((start_x + k / height) * 32 < (start_x + width) * 32) by (nonlinear_arith)
                    requires k / height < width;
                assert((start_y + k % height) * 32 < (start_y + height) * 32) by (nonlinear_arith)
                    requires k % height < height;
            }
            let x = start_x + k / height;
            let y = start_y + k % height;
            let ghost wa = *self;
            let t = self.add_terrain(x * 32, y * 32);
            proof {
                lemma_fill_add(*old(self), wa, *self, first, k as int, start_x, start_y, height);
            }
            let ghost wb = *self;
            self.set_terrain_sprite(t, s);
            self.set_terrain_archetype(t, archetype.clone());
            proof {
                assert(self.sprites_view() =~= old(self).sprites_view().union_prefer_right(same_for_range(first, k + 1, s)));
                assert(self.archetypes() =~= old(self).archetypes().union_prefer_right(same_for_range(first, k + 1, archetype)));
                assert(self.all_listed(block_tiles(first, k + 1, start_x, start_y, height))) by {
                    assert(wb.all_listed(block_tiles(first, k + 1, start_x, start_y, height)));
                    assert(self.same_grid(&wb));
                }
            }
            k = k + 1;
        }
        Ok(())
    }
}

proof fn lemma_grid_grows_refl(w: World)
    ensures
        w.grid_grows(&w),
{
    assert forall|i: int| 0 <= i < w.chunks_view().len() implies
        #[trigger] w.chunks_view()[i].terrain_ids@.take(w.chunks_view()[i].terrain_ids@.len() as int) == w.chunks_view()[i].terrain_ids@ by {
        assert(w.chunks_view()[i].terrain_ids@.take(w.chunks_view()[i].terrain_ids@.len() as int) =~= w.chunks_view()[i].terrain_ids@);
    }
}

/// Adding the `k`-th tile of a block keeps the filling's invariant.
proof fn lemma_fill_add(old: World, wa: World, wb: World, first: usize, k: int, start_x: usize, start_y: usize, height: usize)
    requires
        height > 0,
        0 <= k,
        wa.wf(),
        wa.next_id() == first + k,
        wa.terrain_view() == old.terrain_view().union_prefer_right(block_tiles(first, k, start_x, start_y, height)),
        wa.all_listed(block_tiles(first, k, start_x, start_y, height)),
        wa.grid_grows(&old),
        block_corner(start_x, start_y, height, k).0 <= usize::MAX,
        block_corner(start_x, start_y, height, k).1 <= usize::MAX,
        wb.terrain_added(&wa, block_corner(start_x, start_y, height, k).0 as usize, block_corner(start_x, start_y, height, k).1 as usize, (first + k) as usize),
    ensures
        wb.next_id() == first + k + 1,
        wb.terrain_view() == old.terrain_view().union_prefer_right(block_tiles(first, k + 1, start_x, start_y, height)),
        wb.all_listed(block_tiles(first, k + 1, start_x, start_y, height)),
        wb.grid_grows(&old),
{
    let r = (first + k) as usize;
    let cx = block_corner(start_x, start_y, height, k).0 as usize;
    let cy = block_corner(start_x, start_y, height, k).1 as usize;
    let cell = chunk_cell(cx, cy);
    let c = wb.lookup()[cell];
    let prev = block_tiles(first, k, start_x, start_y, height);
    let next = block_tiles(first, k + 1, start_x, start_y, height);
    assert(next =~= prev.insert(r, Terrain { element_id: r, x: cx, y: cy }));
    assert(wb.terrain_view() =~= old.terrain_view().union_prefer_right(next));
    // the lookup keeps every cell it had, with the same chunk
    assert forall|q: (usize, usize)| #[trigger] wa.lookup().contains_key(q) implies wb.lookup().contains_key(q) && wb.lookup()[q] == wa.lookup()[q] by {
        if q == cell {
            assert(c == wa.lookup()[cell]);
        }
    }
    // every chunk of wa lists what it listed, perhaps with the new tile after it
    assert forall|i: int| 0 <= i < wa.chunks_view().len() implies {
        &&& same_but_terrain(#[trigger] wb.chunks_view()[i], wa.chunks_view()[i])
        &&& wb.chunks_view()[i].terrain_ids@.take(wa.chunks_view()[i].terrain_ids@.len() as int) == wa.chunks_view()[i].terrain_ids@
        &&& wb.chunks_view()[i].terrain_ids@.len() >= wa.chunks_view()[i].terrain_ids@.len()
    } by {
        if i == c {
            assert(wb.chunks_view()[i].terrain_ids@.take(wa.chunks_view()[i].terrain_ids@.len() as int) =~= wa.chunks_view()[i].terrain_ids@);
        } else {
            assert(wb.chunks_view()[i] == wa.chunks_view()[i]);
            assert(wb.chunks_view()[i].terrain_ids@.take(wa.chunks_view()[i].terrain_ids@.len() as int) =~= wa.chunks_view()[i].terrain_ids@);
        }
    }
    assert forall|i: int| 0 <= i < old.chunks_view().len() implies {
        &&& same_but_terrain(#[trigger] wb.chunks_view()[i], old.chunks_view()[i])
        &&& wb.chunks_view()[i].terrain_ids@.take(old.chunks_view()[i].terrain_ids@.len() as int) == old.chunks_view()[i].terrain_ids@
        &&& wb.chunks_view()[i].terrain_ids@.len() >= old.chunks_view()[i].terrain_ids@.len()
    } by {
        let a = wa.chunks_view()[i].terrain_ids@;
        let b = wb.chunks_view()[i].terrain_ids@;
        let o = old.chunks_view()[i].terrain_ids@;
        assert(same_but_terrain(wa.chunks_view()[i], old.chunks_view()[i]));
        assert(a.take(o.len() as int) == o);
        assert(b.take(a.len() as int) == a);
        assert(b.take(o.len() as int) =~= o);
    }
    assert forall|q: (usize, usize)| #[trigger] old.lookup().contains_key(q) implies wb.lookup().contains_key(q) && wb.lookup()[q] == old.lookup()[q] by {
        assert(wa.lookup().contains_key(q));
    }
    // every tile placed so far is still listed where the lookup finds its corner
    assert forall|id: usize| #[trigger] next.contains_key(id) implies {
        let cl = chunk_cell(next[id].x, next[id].y);
        &&& wb.lookup().contains_key(cl)
        &&& wb.chunks_view()[wb.lookup()[cl] as int].terrain_ids@.contains(id)
    } by {
        if id == r {
            let ids = wb.chunks_view()[c as int].terrain_ids@;
            assert(ids[ids.len() - 1] == r);
        } else {
            assert(prev.contains_key(id));
            let cl = chunk_cell(prev[id].x, prev[id].y);
            assert(wa.lookup().contains_key(cl));
            let cc = wa.lookup()[cl];
            wa.lemma_ids_below_next();
            assert(cc < wa.chunks_view().len());
            assert(same_but_terrain(wb.chunks_view()[cc as int], wa.chunks_view()[cc as int]));
            let a = wa.chunks_view()[cc as int].terrain_ids@;
            let b = wb.chunks_view()[cc as int].terrain_ids@;
            assert(a.contains(id));
            let j = choose|j: int| 0 <= j < a.len() && a[j] == id;
            assert(b.take(a.len() as int) == a);
            assert(b[j] == id);
        }
    }
}

} // verus!

verus! {

/// The chunks that exist at chunk column `x`, rows `y0` to `y1`, top to bottom.
pub open spec fn column_chunks(lookup: Map<(usize, usize), usize>, x: usize, y0: int, y1: int) -> Seq<usize>
    decreases y1 - y0 + 1,
{
    if y1 < y0 {
        Seq::empty()
    } else {
        let above = column_chunks(lookup, x, y0, y1 - 1);
        if lookup.contains_key((x, y1 as usize)) {
            above.push(lookup[(x, y1 as usize)])
        } else {
            above
        }
    }
}

/// The chunks that exist in the chunk cells of columns `x0` to `x1` and rows
/// `y0` to `y1`: column by column from the left, each from the top.
pub open spec fn chunks_in_cells(lookup: Map<(usize, usize), usize>, x0: int, x1: int, y0: int, y1: int) -> Seq<usize>
    decreases x1 - x0 + 1,
{
    if x1 < x0 {
        Seq::empty()
    } else {
        chunks_in_cells(lookup, x0, x1 - 1, y0, y1) + column_chunks(lookup, x1 as usize, y0, y1)
    }
}

/// With no rows there are no chunks, whatever the columns.
proof fn lemma_no_rows(lookup: Map<(usize, usize), usize>, x0: int, x1: int, y0: int, y1: int)
    requires
        y1 < y0,
    ensures
        chunks_in_cells(lookup, x0, x1, y0, y1) == Seq::<usize>::empty(),
    decreases x1 - x0 + 1,
{
    if x1 >= x0 {
        lemma_no_rows(lookup, x0, x1 - 1, y0, y1);
        assert(chunks_in_cells(lookup, x0, x1, y0, y1) =~= Seq::<usize>::empty());
    }
}

impl World {
    /// The chunks that a view covering the pixels from `(left, top)` to
    /// `(right, bottom)` shows: those that exist in the chunk cells of those
    /// corners and between them, column by column from the left, each from
    /// the top.
    pub fn chunks_in_view(&self, left: usize, top: usize, right: usize, bottom: usize) -> (r: Vec<usize>)
        ensures
            r@ == chunks_in_cells(self.lookup(), chunk_coord(left as int), chunk_coord(right as int),
                chunk_coord(top as int), chunk_coord(bottom as int)),
    {
        let x0 = World::coord_to_chunk_coord(left);
        let x1 = World::coord_to_chunk_coord(right);
        let y0 = World::coord_to_chunk_coord(top);
        let y1 = World::coord_to_chunk_coord(bottom);
        let mut out: Vec<usize> = Vec::new();
        if x1 < x0 || y1 < y0 {
            proof {
                if y1 < y0 {
                    lemma_no_rows(self.lookup(), x0 as int, x1 as int, y0 as int, y1 as int);
                }
            }
            return out;
        }
        let mut x = x0;
        proof {
            assert(out@ =~= chunks_in_cells(self.lookup(), x0 as int, x0 - 1, y0 as int, y1 as int));
        }
        while x <= x1
            invariant
                x0 <= x <= x1 + 1,
                x1 < usize::MAX,
                y0 <= y1 < usize::MAX,
                out@ == chunks_in_cells(self.lookup(), x0 as int, x - 1, y0 as int, y1 as int),
            decreases x1 + 1 - x,
        {
            let ghost before = out@;
            let mut y = y0;
            proof {
                assert(column_chunks(self.lookup(), x, y0 as int, y0 - 1) =~= Seq::<usize>::empty());
                assert(out@ =~= before + column_chunks(self.lookup(), x, y0 as int, y0 - 1));
            }
            while y <= y1
                invariant
                    x0 <= x <= x1,
                    y0 <= y <= y1 + 1,
                    y1 < usize::MAX,
                    out@ == before + column_chunks(self.lookup(), x, y0 as int, y - 1),
                decreases y1 + 1 - y,
            {
                match self.get_chunk_from_chunk_xy(x, y) {
                    Some(c) => {
                        out.push(c);
                    },
                    None => {},
                }
                proof {
                    assert(out@ =~= before + column_chunks(self.lookup(), x, y0 as int, y as int));
                }
                y = y + 1;
            }
            x = x + 1;
        }
        out
    }
}

} // verus!
