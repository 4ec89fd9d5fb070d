//! The directions in which an entity walks along a path, and how an entity
//! that chases the player picks its next step.
use vstd::prelude::*;

verus! {

/// Where an entity walks next: one of the four grid neighbours, or nowhere.
#[derive(Debug, Clone, Copy, PartialEq, Eq, Structural)]
pub enum EntityDirectionOptions {
    Up,
    Down,
    Left,
    Right,
    Nowhere,
}

/// The direction of the step from the grid cell `from` to the grid cell
/// `to` (`y` grows downwards): a step to a neighbour names its side, any
/// other step names nowhere.
pub open spec fn step_direction(from: (int, int), to: (int, int)) -> EntityDirectionOptions {
    let dx = to.0 - from.0;
    let dy = to.1 - from.1;
    if dx == 1 && dy == 0 {
        EntityDirectionOptions::Right
    } else if dx == -1 && dy == 0 {
        EntityDirectionOptions::Left
    } else if dx == 0 && dy == 1 {
        EntityDirectionOptions::Down
    } else if dx == 0 && dy == -1 {
        EntityDirectionOptions::Up
    } else {
        EntityDirectionOptions::Nowhere
    }
}

/// The direction of the first step of a path found from `start`: `path`
/// lists the cells after `start`, in order. A path of fewer than two cells
/// gives nowhere. Coordinates are at most `isize::MAX`, as the search
/// compares them as signed numbers.
pub fn first_step_direction(start: (usize, usize), path: &Vec<(usize, usize)>) -> (r: EntityDirectionOptions)
    requires
        start.0 <= isize::MAX,
        start.1 <= isize::MAX,
        path@.len() >= 2 ==> path@[0].0 <= isize::MAX && path@[0].1 <= isize::MAX,
    ensures
        r == if path@.len() < 2 {
            EntityDirectionOptions::Nowhere
        } else {
            step_direction((start.0 as int, start.1 as int), (path@[0].0 as int, path@[0].1 as int))
        },
{
    if path.len() < 2 {
        return EntityDirectionOptions::Nowhere;
    }
    let (nx, ny) = path[0];
    let (sx, sy) = start;
    if ny == sy {
        if sx < usize::MAX && nx == sx + 1 {
            EntityDirectionOptions::Right
        } else if sx > 0 && nx == sx - 1 {
            EntityDirectionOptions::Left
        } else {
            EntityDirectionOptions::Nowhere
        }
    } else if nx == sx {
        if sy < usize::MAX && ny == sy + 1 {
            EntityDirectionOptions::Down
        } else if sy > 0 && ny == sy - 1 {
            EntityDirectionOptions::Up
        } else {
            EntityDirectionOptions::Nowhere
        }
    } else {
        EntityDirectionOptions::Nowhere
    }
}

/// How far an entity is from the player: on top of it, within 60 pixels,
/// within 128 pixels, or farther.
#[derive(Debug, Clone, Copy, PartialEq, Eq, Structural)]
pub enum ChaseDistance {
    AtPlayer,
    Near,
    Mid,
    Far,
}

/// How a chasing entity moves this frame.
#[derive(Debug, Clone, Copy, PartialEq, Eq, Structural)]
pub enum ChaseStep {
    /// It does not move.
    Stay,
    /// It keeps walking in the direction it walked in (not at all for nowhere).
    Keep(EntityDirectionOptions),
    /// It searches a path over whole tiles and walks its first step.
    ByBlock,
    /// It searches a path over small cells and walks its first step.
    Fine,
    /// It walks straight towards the player.
    Straight,
}

/// The step of an entity at `distance` from the player, walking in direction
/// `cur`; `own_frame` tells whether this frame is the entity's frame for
/// searching paths, and `respects_collision` whether walls stop it. Entities
/// that walls stop search paths when far, keeping their direction between
/// their frames; the others walk straight.
pub open spec fn chase_step(
    distance: ChaseDistance,
    own_frame: bool,
    respects_collision: bool,
    cur: EntityDirectionOptions,
) -> ChaseStep {
    match distance {
        ChaseDistance::AtPlayer => ChaseStep::Stay,
        ChaseDistance::Far => if !respects_collision {
            ChaseStep::Straight
        } else if !own_frame {
            ChaseStep::Keep(cur)
        } else {
            ChaseStep::ByBlock
        },
        ChaseDistance::Mid => if respects_collision {
            ChaseStep::Fine
        } else {
            ChaseStep::Straight
        },
        ChaseDistance::Near => ChaseStep::Straight,
    }
}

/// The step of a chasing entity this frame, as [`chase_step`] describes it.
pub fn plan_chase_step(
    distance: ChaseDistance,
    own_frame: bool,
    respects_collision: bool,
    cur: EntityDirectionOptions,
) -> (r: ChaseStep)
    ensures
        r == chase_step(distance, own_frame, respects_collision, cur),
{
    match distance {
        ChaseDistance::AtPlayer => ChaseStep::Stay,
        ChaseDistance::Far => {
            if !respects_collision {
                ChaseStep::Straight
            } else if !own_frame {
                ChaseStep::Keep(cur)
            } else {
                ChaseStep::ByBlock
            }
        },
        ChaseDistance::Mid => {
            if respects_collision {
                ChaseStep::Fine
            } else {
                ChaseStep::Straight
            }
        },
        ChaseDistance::Near => ChaseStep::Straight,
    }
}

/// How a chasing entity moves depends on its distance as follows, whatever
/// direction it walked in before: on top of the player it stays; near it, it
/// walks straight; an entity that walls stop searches a fine path at middle
/// distance and a path over tiles when far, on its own frame; one that walls
/// do not stop walks straight unless on top of the player. Whether this frame
/// is the entity's own matters only when it is far and walls stop it, and
/// then only its own direction is kept.
pub proof fn lemma_chase_by_distance(d: ChaseDistance, own_frame: bool, respects: bool, cur: EntityDirectionOptions)
    ensures
        d == ChaseDistance::AtPlayer ==> chase_step(d, own_frame, respects, cur) == ChaseStep::Stay,
        d == ChaseDistance::Near ==> chase_step(d, own_frame, respects, cur) == ChaseStep::Straight,
        d == ChaseDistance::Mid && respects ==> chase_step(d, own_frame, respects, cur) == ChaseStep::Fine,
        d == ChaseDistance::Far && respects && own_frame ==> chase_step(d, own_frame, respects, cur) == ChaseStep::ByBlock,
        d == ChaseDistance::Far && respects && !own_frame ==> chase_step(d, own_frame, respects, cur) == ChaseStep::Keep(cur),
        d != ChaseDistance::AtPlayer && !respects ==> chase_step(d, own_frame, respects, cur) == ChaseStep::Straight,
        !(d == ChaseDistance::Far && respects) ==> chase_step(d, true, respects, cur) == chase_step(d, false, respects, cur),
        chase_step(d, own_frame, respects, cur) matches ChaseStep::Keep(k) ==> k == cur,
        chase_step(d, own_frame, respects, cur) is ByBlock || chase_step(d, own_frame, respects, cur) is Fine ==> respects,
{
}

} // verus!
