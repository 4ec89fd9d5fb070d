use xiaofeng::pathfinding::{first_step_direction, EntityDirectionOptions};
use xiaofeng::player::{steer_player, PlayerDir, PlayerState};

#[test]
fn keys_steer_the_player() {
    let s = steer_player(false, false, false, true, PlayerDir::Down, PlayerState::Idle);
    assert_eq!((s.dx, s.dy), (1, 0));
    assert_eq!(s.direction, PlayerDir::Right);
    assert_eq!(s.sprite.as_deref(), Some("player_right"));
    assert_eq!(s.state, PlayerState::Walking);

    let s = steer_player(true, true, false, false, PlayerDir::Down, PlayerState::Walking);
    assert_eq!((s.dx, s.dy), (-1, -1));
    assert_eq!(s.direction, PlayerDir::UpLeft);
    assert_eq!(s.sprite.as_deref(), Some("player_left"));

    let s = steer_player(true, false, false, false, PlayerDir::Left, PlayerState::AttackingMelee);
    assert_eq!(s.direction, PlayerDir::Up);
    assert_eq!(s.sprite.as_deref(), Some("player_back"));
    assert_eq!(s.state, PlayerState::AttackingMelee);

    let s = steer_player(false, false, true, false, PlayerDir::Left, PlayerState::Idle);
    assert_eq!(s.direction, PlayerDir::Down);
    assert_eq!(s.sprite.as_deref(), Some("player_front"));

    let s = steer_player(false, false, true, true, PlayerDir::Left, PlayerState::Idle);
    assert_eq!(s.direction, PlayerDir::DownRight);
    let s = steer_player(true, false, false, true, PlayerDir::Left, PlayerState::Idle);
    assert_eq!(s.direction, PlayerDir::UpRight);
    let s = steer_player(false, true, true, false, PlayerDir::Up, PlayerState::Idle);
    assert_eq!(s.direction, PlayerDir::DownLeft);
}

#[test]
fn opposite_keys_cancel() {
    let s = steer_player(false, true, false, true, PlayerDir::Left, PlayerState::Walking);
    assert_eq!((s.dx, s.dy), (0, 0));
    assert_eq!(s.direction, PlayerDir::Left);
    assert!(s.sprite.is_none());
    assert_eq!(s.state, PlayerState::Idle);
    let s = steer_player(true, false, true, false, PlayerDir::Right, PlayerState::ChargingAbility);
    assert_eq!((s.dx, s.dy), (0, 0));
    assert_eq!(s.state, PlayerState::ChargingAbility);
    assert_eq!(s.direction, PlayerDir::Right);
}

#[test]
fn speed_depends_on_state() {
    assert!(PlayerState::Idle.moves_at_full_speed());
    assert!(PlayerState::Walking.moves_at_full_speed());
    assert!(PlayerState::EndingAbility.moves_at_full_speed());
    assert!(!PlayerState::AttackingRanged.moves_at_full_speed());
    assert!(!PlayerState::AttackingMelee.moves_at_full_speed());
    assert!(!PlayerState::ChargingAbility.moves_at_full_speed());
}

#[test]
fn first_step_directions() {
    let start = (10, 10);
    assert_eq!(first_step_direction(start, &vec![(11, 10), (12, 10)]), EntityDirectionOptions::Right);
    assert_eq!(first_step_direction(start, &vec![(9, 10), (8, 10)]), EntityDirectionOptions::Left);
    assert_eq!(first_step_direction(start, &vec![(10, 11), (10, 12)]), EntityDirectionOptions::Down);
    assert_eq!(first_step_direction(start, &vec![(10, 9), (10, 8)]), EntityDirectionOptions::Up);
    assert_eq!(first_step_direction(start, &vec![(11, 11), (12, 12)]), EntityDirectionOptions::Nowhere);
    // a path of a single step gives nowhere
    assert_eq!(first_step_direction(start, &vec![(11, 10)]), EntityDirectionOptions::Nowhere);
    assert_eq!(first_step_direction((0, 0), &vec![]), EntityDirectionOptions::Nowhere);
}
