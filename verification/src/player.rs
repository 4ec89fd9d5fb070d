//! The player's facing and movement state, and how the movement keys steer them.
use vstd::prelude::*;

verus! {

/// The eight directions the player can face.
#[derive(Debug, Clone, Copy, PartialEq, Eq, Structural)]
pub enum PlayerDir {
    Up,
    UpLeft,
    UpRight,
    Down,
    DownRight,
    DownLeft,
    Left,
    Right,
}

/// What the player is doing.
#[derive(Debug, Clone, Copy, PartialEq, Eq, Structural)]
pub enum PlayerState {
    Idle,
    Walking,
    AttackingRanged,
    AttackingMelee,
    ChargingAbility,
    EndingAbility,
}

/// The direction the movement keys ask for, each axis -1, 0 or 1 (`y` grows
/// downwards); the new facing and the name of its sprite when the player
/// moves; and the new state.
#[derive(Debug, Clone)]
pub struct Steering {
    pub dx: i8,
    pub dy: i8,
    pub direction: PlayerDir,
    pub sprite: Option<String>,
    pub state: PlayerState,
}

/// The axis value of a pair of opposite keys: -1 for the negative one alone,
/// 1 for the positive one alone, 0 for both or neither.
pub open spec fn axis(neg: bool, pos: bool) -> int {
    (if pos { 1int } else { 0int }) - (if neg { 1int } else { 0int })
}

/// The facing of the movement `(dx, dy)` and the name of its sprite, if the
/// player moves.
pub open spec fn facing(dx: int, dy: int) -> Option<(PlayerDir, Seq<char>)> {
    if dx == 0 && dy < 0 {
        Some((PlayerDir::Up, "player_back"@))
    } else if dx == 0 && dy > 0 {
        Some((PlayerDir::Down, "player_front"@))
    } else if dx > 0 && dy == 0 {
        Some((PlayerDir::Right, "player_right"@))
    } else if dx > 0 && dy < 0 {
        Some((PlayerDir::UpRight, "player_right"@))
    } else if dx > 0 && dy > 0 {
        Some((PlayerDir::DownRight, "player_right"@))
    } else if dx < 0 && dy == 0 {
        Some((PlayerDir::Left, "player_left"@))
    } else if dx < 0 && dy > 0 {
        Some((PlayerDir::DownLeft, "player_left"@))
    } else if dx < 0 && dy < 0 {
        Some((PlayerDir::UpLeft, "player_left"@))
    } else {
        None
    }
}

/// How the movement keys steer the player who faces `direction` in state
/// `state`: `up`, `left`, `down` and `right` are whether each direction's
/// key (or its arrow key) is held. A moving player faces the way it moves and
/// starts walking if it was idle; a player that stops walking becomes idle;
/// any other state is kept.
pub fn steer_player(up: bool, left: bool, down: bool, right: bool, direction: PlayerDir, state: PlayerState) -> (r: Steering)
    ensures
        r.dx == axis(left, right),
        r.dy == axis(up, down),
        match facing(r.dx as int, r.dy as int) {
            Some((d, s)) => {
                &&& r.direction == d
                &&& r.sprite matches Some(name) && name@ == s
                &&& r.state == if state == PlayerState::Idle { PlayerState::Walking } else { state }
            },
            None => {
                &&& r.direction == direction
                &&& r.sprite is None
                &&& r.state == if state == PlayerState::Walking { PlayerState::Idle } else { state }
            },
        },
{
    let mut dx: i8 = 0;
    let mut dy: i8 = 0;
    if up {
        dy = dy - 1;
    }
    if left {
        dx = dx - 1;
    }
    if down {
        dy = dy + 1;
    }
    if right {
        dx = dx + 1;
    }
    let moving_state = match state {
        PlayerState::Idle => PlayerState::Walking,
        _ => state,
    };
    let (dir, sprite): (PlayerDir, &str) = if dx == 0 && dy < 0 {
        (PlayerDir::Up, "player_back")
    } else if dx == 0 && dy > 0 {
        (PlayerDir::Down, "player_front")
    } else if dx > 0 && dy == 0 {
        (PlayerDir::Right, "player_right")
    } else if dx > 0 && dy < 0 {
        (PlayerDir::UpRight, "player_right")
    } else if dx > 0 && dy > 0 {
        (PlayerDir::DownRight, "player_right")
    } else if dx < 0 && dy == 0 {
        (PlayerDir::Left, "player_left")
    } else if dx < 0 && dy > 0 {
        (PlayerDir::DownLeft, "player_left")
    } else if dx < 0 && dy < 0 {
        (PlayerDir::UpLeft, "player_left")
    } else {
        let stopped = match state {
            PlayerState::Walking => PlayerState::Idle,
            _ => state,
        };
        return Steering { dx, dy, direction, sprite: None, state: stopped };
    };
    Steering { dx, dy, direction: dir, sprite: Some(sprite.to_owned()), state: moving_state }
}

impl PlayerState {
    /// Whether the player moves at its full speed in this state; while
    /// attacking or charging an ability it moves at a third of it.
    pub fn moves_at_full_speed(&self) -> (r: bool)
        ensures
            r == (*self == PlayerState::Idle || *self == PlayerState::Walking || *self == PlayerState::EndingAbility),
    {
        match self {
            PlayerState::Idle | PlayerState::Walking | PlayerState::EndingAbility => true,
            _ => false,
        }
    }
}

/// The step one moves by facing `d`, one square each way at most: `x` to the
/// right, `y` downwards.
pub open spec fn dir_step(d: PlayerDir) -> (int, int) {
    match d {
        PlayerDir::Up => (0, -1),
        PlayerDir::UpLeft => (-1, -1),
        PlayerDir::UpRight => (1, -1),
        PlayerDir::Down => (0, 1),
        PlayerDir::DownRight => (1, 1),
        PlayerDir::DownLeft => (-1, 1),
        PlayerDir::Left => (-1, 0),
        PlayerDir::Right => (1, 0),
    }
}

/// A player pushed by the keys by `(dx, dy)` (each -1, 0 or 1) faces exactly
/// the way it is pushed: it has a facing if and only if it moves, and that
/// facing's step is `(dx, dy)`, so each of the eight facings comes from its own
/// push alone. It is drawn from the right or the left when it moves sideways,
/// and from the back or the front when it moves straight up or down.
pub proof fn lemma_facing_follows_keys(dx: int, dy: int)
    requires
        -1 <= dx <= 1,
        -1 <= dy <= 1,
    ensures
        facing(dx, dy) is None <==> (dx == 0 && dy == 0),
        facing(dx, dy) matches Some((d, _)) ==> dir_step(d) == (dx, dy),
        facing(dx, dy) matches Some((_, s)) ==> s == if dx > 0 {
            "player_right"@
        } else if dx < 0 {
            "player_left"@
        } else if dy < 0 {
            "player_back"@
        } else {
            "player_front"@
        },
{
}

/// Pressing opposite keys together cancels them: the push along an axis is
/// the positive key's minus the negative key's.
pub proof fn lemma_opposite_keys_cancel(neg: bool, pos: bool)
    ensures
        -1 <= axis(neg, pos) <= 1,
        axis(neg, pos) == 0 <==> neg == pos,
        axis(neg, pos) == 1 <==> (pos && !neg),
        axis(neg, pos) == -1 <==> (neg && !pos),
{
}

} // verus!
