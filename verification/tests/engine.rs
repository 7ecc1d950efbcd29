use sokoban::grid::EntityKind;
use sokoban::grid::MapSize;
use sokoban::grid::MoveOutcome;
use sokoban::grid::Occupant;
use sokoban::grid::TileStorage;
use sokoban::level::load_level;
use sokoban::session::Direction;
use sokoban::session::LevelSession;
use sokoban::session::MoveResult;

const COOLDOWN_MS: u32 = 300;

fn session_from(text: &[u8]) -> LevelSession {
    let mut s = load_level(&text.to_vec()).ok().unwrap().into_session(0, COOLDOWN_MS);
    s.cooldown.unpause();
    s.cooldown.tick(COOLDOWN_MS);
    s
}

fn ready(s: &mut LevelSession) {
    s.cooldown.tick(COOLDOWN_MS);
}

#[test]
fn simple_move_into_free_cell() {
    let mut s = session_from(b"#####\n#@.D#\n#####");
    let r = s.player_move(Direction::Right);
    assert_eq!(r, MoveResult::Moved);
    assert_eq!((s.player.x, s.player.y), (2, 1));
    assert!(s.grid.occupant_at(s.player.index).unwrap().kind == EntityKind::Player);
    assert!(s.grid.occupant_at(6).is_none());
    assert_eq!(s.cooldown.elapsed_ms, 0);
}

#[test]
fn move_before_cooldown_elapses_is_dropped() {
    let mut s = load_level(&b"#####\n#@.D#\n#####".to_vec())
        .ok()
        .unwrap()
        .into_session(0, COOLDOWN_MS);
    s.cooldown.unpause();
    let r = s.player_move(Direction::Right);
    assert_eq!(r, MoveResult::NotReady);
    assert_eq!((s.player.x, s.player.y), (1, 1));
}

#[test]
fn boundary_move_is_rejected_without_state_change() {
    let mut s = session_from(b"@D");
    let before_player = s.player;
    let r = s.player_move(Direction::Left);
    assert_eq!(r, MoveResult::OutOfBounds);
    assert_eq!(s.player, before_player);
    // the cooldown was not reset: the next intent may register at once
    assert_eq!(s.cooldown.elapsed_ms, COOLDOWN_MS);
    let r = s.player_move(Direction::Up);
    assert_eq!(r, MoveResult::OutOfBounds);
    let r = s.player_move(Direction::Down);
    assert_eq!(r, MoveResult::OutOfBounds);
    assert_eq!((s.player.x, s.player.y), (0, 0));
    // the occupancy index is untouched
    assert_eq!(s.grid.occupant_at(0).unwrap().kind, EntityKind::Player);
    assert_eq!(s.grid.occupant_at(1).unwrap().kind, EntityKind::Door);
}

#[test]
fn wall_blocks_and_consumes_the_turn() {
    let mut s = session_from(b"###\n#@#\n#D#");
    let r = s.player_move(Direction::Right);
    assert_eq!(r, MoveResult::BlockedByObstacle);
    assert_eq!((s.player.x, s.player.y), (1, 1));
    // an attempted move against an immovable blocker still resets the
    // cooldown
    assert_eq!(s.cooldown.elapsed_ms, 0);
}

#[test]
fn closed_door_blocks_like_a_wall() {
    let mut s = session_from(b"###\n#@#\n#D#");
    let r = s.player_move(Direction::Down);
    assert_eq!(r, MoveResult::BlockedByObstacle);
    assert_eq!((s.player.x, s.player.y), (1, 1));
    assert!(!s.door.is_open);
}

#[test]
fn push_box_into_wall_changes_nothing() {
    // box against the wall on the player's right
    let mut s = session_from(b"#####\n#@b##\n#.oD#\n#####");
    let box_index = s.player.index + 1;
    let r = s.player_move(Direction::Right);
    assert_eq!(r, MoveResult::PushBlocked);
    assert_eq!((s.player.x, s.player.y), (1, 1));
    assert!(s.grid.occupant_at(box_index).unwrap().kind == EntityKind::Box);
    assert!(s.grid.occupant_at(s.player.index).unwrap().kind == EntityKind::Player);
    assert_eq!(s.cooldown.elapsed_ms, 0);
}

#[test]
fn push_box_into_box_changes_nothing() {
    let mut s = session_from(b"#####\n#@bb#\n#..D#\n#####");
    let r = s.player_move(Direction::Right);
    assert_eq!(r, MoveResult::PushBlocked);
    assert_eq!((s.player.x, s.player.y), (1, 1));
}

#[test]
fn push_box_off_the_grid_edge_is_blocked() {
    // no wall on the right: the box would leave the grid
    let mut s = session_from(b"#D\n@b");
    let r = s.player_move(Direction::Right);
    assert_eq!(r, MoveResult::PushBlocked);
    assert_eq!((s.player.x, s.player.y), (0, 1));
}

#[test]
fn push_moves_box_and_player_together() {
    let mut s = session_from(b"######\n#@b.o#\n#...D#\n######");
    let old_player = s.player.index;
    let box_index = old_player + 1;
    let r = s.player_move(Direction::Right);
    assert_eq!(r, MoveResult::Pushed { won: false });
    assert_eq!((s.player.x, s.player.y), (2, 1));
    assert!(s.grid.occupant_at(old_player).is_none());
    assert!(s.grid.occupant_at(box_index).unwrap().kind == EntityKind::Player);
    assert!(s.grid.occupant_at(box_index + 1).unwrap().kind == EntityKind::Box);
}

#[test]
fn pushing_right_twice_places_the_box_on_the_trigger() {
    // player, a gap, then the box with the trigger beyond it
    let mut s = session_from(b"######\n#@.bo#\n#D...#\n######");
    let r = s.player_move(Direction::Right);
    assert_eq!(r, MoveResult::Moved);
    ready(&mut s);
    let r = s.player_move(Direction::Right);
    assert_eq!(r, MoveResult::Pushed { won: true });
    assert!(s.door.is_open);
    // the opened door's cell is vacated so the player may walk onto it
    assert!(s.grid.occupant_at(s.door.index).is_none());
}

#[test]
fn win_opens_door_exactly_once() {
    let mut s = session_from(b"#####\n#@bo#\n#.D##\n#####");
    let r = s.player_move(Direction::Right);
    assert_eq!(r, MoveResult::Pushed { won: true });
    assert!(s.door.is_open);
    assert!(s.grid.occupant_at(s.door.index).is_none());
    // re-winning while already open is a no-op, and the verdict repeats
    let won_again = s.evaluate_win();
    assert!(won_again);
    assert!(s.door.is_open);
    assert!(s.grid.occupant_at(s.door.index).is_none());
}

#[test]
fn win_evaluator_verdict_repeats_without_moves() {
    let mut s = session_from(b"#####\n#@bo#\n#.D##\n#####");
    let first = s.evaluate_win();
    let second = s.evaluate_win();
    assert_eq!(first, second);
    assert!(!first);
    assert!(!s.door.is_open);
}

#[test]
fn player_reaches_open_door() {
    let mut s = session_from(b"#####\n#@bo#\n#.D##\n#####");
    let r = s.player_move(Direction::Right);
    assert_eq!(r, MoveResult::Pushed { won: true });
    ready(&mut s);
    assert!(!s.win_condition());
    let r = s.player_move(Direction::Down);
    assert_eq!(r, MoveResult::Moved);
    ready(&mut s);
    assert!(s.win_condition());
}

#[test]
fn facing_follows_the_horizontal_component() {
    let mut s = session_from(b"####\n#@.#\n#.D#\n####");
    s.player_move(Direction::Right);
    assert!(!s.facing_left);
    ready(&mut s);
    s.player_move(Direction::Left);
    assert!(s.facing_left);
    ready(&mut s);
    s.player_move(Direction::Down);
    assert!(!s.facing_left);
}

#[test]
fn occupancy_count_is_preserved_by_moves() {
    let text = b"######\n#@b.o#\n#...D#\n######";
    let mut s = session_from(text);
    let count = |s: &LevelSession| {
        let mut n = 0;
        for i in 0..(s.grid.size.width * s.grid.size.height) as usize {
            if s.grid.occupant_at(i).is_some() {
                n += 1;
            }
        }
        n
    };
    let before = count(&s);
    s.player_move(Direction::Right);
    assert_eq!(count(&s), before);
    ready(&mut s);
    s.player_move(Direction::Up);
    assert_eq!(count(&s), before);
}

#[test]
fn opening_the_door_removes_exactly_its_occupant() {
    let mut s = session_from(b"#####\n#@bo#\n#.D##\n#####");
    let count = |s: &LevelSession| {
        let mut n = 0;
        for i in 0..(s.grid.size.width * s.grid.size.height) as usize {
            if s.grid.occupant_at(i).is_some() {
                n += 1;
            }
        }
        n
    };
    let before = count(&s);
    let r = s.player_move(Direction::Right);
    assert_eq!(r, MoveResult::Pushed { won: true });
    assert_eq!(count(&s), before - 1);
}

#[test]
fn move_tile_is_atomic() {
    let mut grid = TileStorage::new(MapSize { width: 3, height: 1 });
    let a = Occupant { id: 7, kind: EntityKind::Box };
    let b = Occupant { id: 9, kind: EntityKind::Wall };
    grid.tiles[0] = Some(a);
    grid.tiles[2] = Some(b);
    // blocked: nothing at all changes
    let r = grid.move_tile(a, 0, 2);
    assert_eq!(r, MoveOutcome::Blocked(b));
    assert_eq!(grid.occupant_at(0), Some(a));
    assert_eq!(grid.occupant_at(2), Some(b));
    // free: the old cell is vacated, the new one occupied
    let r = grid.move_tile(a, 0, 1);
    assert_eq!(r, MoveOutcome::Moved);
    assert_eq!(grid.occupant_at(0), None);
    assert_eq!(grid.occupant_at(1), Some(a));
}
