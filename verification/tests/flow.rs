use sokoban::animate::TransitionTimer;
use sokoban::session::Direction;
use sokoban::session::intent_from_pressed;
use sokoban::animate::next_frame;
use sokoban::animate::reveal_offset_permille;
use sokoban::session::MoveCooldown;
use sokoban::state::GameEvent;
use sokoban::state::GameFlow;
use sokoban::state::GameState;

#[test]
fn entry_reveal_leads_to_playing() {
    let mut f = GameFlow::new(2);
    assert_eq!(f.state, GameState::Starting);
    assert_eq!(f.level_index, 0);
    f.handle(GameEvent::RevealFinished);
    assert_eq!(f.state, GameState::Playing);
}

#[test]
fn reset_rebuilds_the_same_level() {
    let mut f = GameFlow::new(3);
    f.handle(GameEvent::RevealFinished);
    f.handle(GameEvent::ResetRequested);
    assert_eq!(f.state, GameState::Resetting);
    f.handle(GameEvent::TeardownFinished);
    assert_eq!(f.state, GameState::Starting);
    assert_eq!(f.level_index, 0);
}

#[test]
fn door_reached_advances_to_the_next_level() {
    let mut f = GameFlow::new(2);
    f.handle(GameEvent::RevealFinished);
    f.handle(GameEvent::DoorReached);
    assert_eq!(f.state, GameState::NextLevel);
    f.handle(GameEvent::TeardownFinished);
    assert_eq!(f.state, GameState::Starting);
    assert_eq!(f.level_index, 1);
}

#[test]
fn advancing_past_the_last_level_ends_the_game() {
    let mut f = GameFlow::new(1);
    f.handle(GameEvent::RevealFinished);
    f.handle(GameEvent::DoorReached);
    f.handle(GameEvent::TeardownFinished);
    assert_eq!(f.state, GameState::GameOver);
    assert_eq!(f.level_index, 0);
    // an explicit restart goes back to the first level
    f.handle(GameEvent::RestartRequested);
    assert_eq!(f.state, GameState::Starting);
    assert_eq!(f.level_index, 0);
}

#[test]
fn restart_from_game_over_resets_the_level_index() {
    let mut f = GameFlow::new(2);
    f.handle(GameEvent::RevealFinished);
    f.handle(GameEvent::DoorReached);
    f.handle(GameEvent::TeardownFinished);
    assert_eq!(f.level_index, 1);
    f.handle(GameEvent::RevealFinished);
    f.handle(GameEvent::DoorReached);
    f.handle(GameEvent::TeardownFinished);
    assert_eq!(f.state, GameState::GameOver);
    f.handle(GameEvent::RestartRequested);
    assert_eq!(f.state, GameState::Starting);
    assert_eq!(f.level_index, 0);
}

#[test]
fn unrelated_events_change_nothing() {
    let mut f = GameFlow::new(2);
    f.handle(GameEvent::TeardownFinished);
    f.handle(GameEvent::DoorReached);
    f.handle(GameEvent::RestartRequested);
    assert_eq!(f.state, GameState::Starting);
    assert_eq!(f.level_index, 0);
    f.handle(GameEvent::RevealFinished);
    f.handle(GameEvent::RevealFinished);
    assert_eq!(f.state, GameState::Playing);
}

#[test]
fn transition_timer_reports_progress_and_completion() {
    let mut t = TransitionTimer::new(1000);
    assert!(!t.tick(400));
    assert_eq!(t.progress_permille(), 400);
    assert!(!t.tick(400));
    assert_eq!(t.progress_permille(), 800);
    assert!(t.tick(400));
    assert_eq!(t.progress_permille(), 1000);
    // a finished timer stays finished
    assert!(t.tick(100));
    assert_eq!(t.elapsed_ms, 1000);
}

#[test]
fn reveal_offset_staggers_by_column() {
    // at the stagger origin the offset follows progress exactly
    assert_eq!(reveal_offset_permille(2, 0), 0);
    assert_eq!(reveal_offset_permille(2, 500), 500);
    // columns to the right are ahead by twenty permille each
    assert_eq!(reveal_offset_permille(7, 100), 200);
    // columns left of the origin lag and clamp at zero
    assert_eq!(reveal_offset_permille(0, 30), 0);
    // far columns clamp at the full scale
    assert_eq!(reveal_offset_permille(52, 0), 1000);
    assert_eq!(reveal_offset_permille(52, 900), 1000);
}

#[test]
fn sprite_frames_cycle_through_their_range() {
    assert_eq!(next_frame(0, 0, 7), 1);
    assert_eq!(next_frame(6, 0, 7), 7);
    assert_eq!(next_frame(7, 0, 7), 0);
    assert_eq!(next_frame(8, 8, 11), 9);
    assert_eq!(next_frame(11, 8, 11), 8);
}

#[test]
fn cooldown_paces_and_resets() {
    let mut c = MoveCooldown::new(300, true);
    // paused: time does not pass
    c.tick(1000);
    assert!(!c.is_finished());
    assert_eq!(c.elapsed_ms, 0);
    c.unpause();
    c.tick(299);
    assert!(!c.is_finished());
    c.tick(1);
    assert!(c.is_finished());
    // elapsed time is capped at the duration
    c.tick(500);
    assert_eq!(c.elapsed_ms, 300);
    c.reset();
    assert_eq!(c.elapsed_ms, 0);
    assert!(!c.is_finished());
}

#[test]
fn simultaneous_keys_resolve_left_up_right_down() {
    assert_eq!(intent_from_pressed(true, true, true, true), Some(Direction::Left));
    assert_eq!(intent_from_pressed(false, true, true, true), Some(Direction::Up));
    assert_eq!(intent_from_pressed(false, false, true, true), Some(Direction::Right));
    assert_eq!(intent_from_pressed(false, false, false, true), Some(Direction::Down));
    assert_eq!(intent_from_pressed(false, false, false, false), None);
}
