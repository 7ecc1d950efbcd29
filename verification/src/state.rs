//! The level-transition state machine: it drives a session through
//! `Starting -> Playing -> {Resetting | NextLevel} -> (Starting | GameOver)`
//! and back to `Starting` on an explicit restart after the game is over.

use vstd::prelude::*;

verus! {

/// The phase the game is in.
#[derive(Clone, Copy, PartialEq, Eq, Structural, Debug)]
pub enum GameState {
    /// The level is loading and the entry reveal plays; moves are ignored.
    Starting,
    /// The puzzle is live: moves, win checks and the door watch run.
    Playing,
    /// A player-initiated restart: the despawn animation plays, then the
    /// same level is rebuilt.
    Resetting,
    /// The level was completed: the despawn animation plays, then the next
    /// level starts, or the game ends when none is left.
    NextLevel,
    /// Terminal display state; only an explicit restart leaves it.
    GameOver,
}

/// A happening the state machine reacts to. Everything else leaves it alone.
#[derive(Clone, Copy, PartialEq, Eq, Structural, Debug)]
pub enum GameEvent {
    /// The entry reveal animation has completed.
    RevealFinished,
    /// The despawn animation has completed and the session is torn down.
    TeardownFinished,
    /// The player stands on the open door with the move cooldown elapsed.
    DoorReached,
    /// The player asked to restart the current level.
    ResetRequested,
    /// The player asked, after the game is over, to start over from the
    /// first level.
    RestartRequested,
}

/// The state machine: the current phase, the index of the current level,
/// and how many level definitions exist.
#[derive(Clone, Copy, PartialEq, Eq, Structural, Debug)]
pub struct GameFlow {
    pub state: GameState,
    pub level_index: usize,
    pub level_count: usize,
}

impl GameFlow {
    pub open spec fn wf(self) -> bool {
        0 < self.level_count && self.level_index < self.level_count
    }

    /// The exact transition relation: each (phase, event) pair that the
    /// machine reacts to, and the level index it moves to. Pairs not
    /// listed change nothing.
    pub open spec fn next_spec(self, event: GameEvent) -> GameFlow {
        match (self.state, event) {
            (GameState::Starting, GameEvent::RevealFinished) => GameFlow {
                state: GameState::Playing,
                ..self
            },
            (GameState::Playing, GameEvent::ResetRequested) => GameFlow {
                state: GameState::Resetting,
                ..self
            },
            (GameState::Playing, GameEvent::DoorReached) => GameFlow {
                state: GameState::NextLevel,
                ..self
            },
            (GameState::Resetting, GameEvent::TeardownFinished) => GameFlow {
                state: GameState::Starting,
                ..self
            },
            (GameState::NextLevel, GameEvent::TeardownFinished) => {
                if self.level_index + 1 < self.level_count {
                    GameFlow {
                        state: GameState::Starting,
                        level_index: (self.level_index + 1) as usize,
                        ..self
                    }
                } else {
                    GameFlow { state: GameState::GameOver, ..self }
                }
            },
            (GameState::GameOver, GameEvent::RestartRequested) => GameFlow {
                state: GameState::Starting,
                level_index: 0,
                ..self
            },
            _ => self,
        }
    }

    /// A fresh game at the first level, about to load it.
    pub fn new(level_count: usize) -> (r: GameFlow)
        requires
            0 < level_count,
        ensures
            r.wf(),
            r.state == GameState::Starting,
            r.level_index == 0,
            r.level_count == level_count,
    {
        GameFlow { state: GameState::Starting, level_index: 0, level_count }
    }

    /// React to one event, following the transition relation exactly.
    pub fn handle(&mut self, event: GameEvent)
        requires
            old(self).wf(),
        ensures
            *final(self) == old(self).next_spec(event),
            final(self).wf(),
    {
        match (self.state, event) {
            (GameState::Starting, GameEvent::RevealFinished) => {
                self.state = GameState::Playing;
            },
            (GameState::Playing, GameEvent::ResetRequested) => {
                self.state = GameState::Resetting;
            },
            (GameState::Playing, GameEvent::DoorReached) => {
                self.state = GameState::NextLevel;
            },
            (GameState::Resetting, GameEvent::TeardownFinished) => {
                self.state = GameState::Starting;
            },
            (GameState::NextLevel, GameEvent::TeardownFinished) => {
                if self.level_index + 1 < self.level_count {
                    self.level_index = self.level_index + 1;
                    self.state = GameState::Starting;
                } else {
                    self.state = GameState::GameOver;
                }
            },
            (GameState::GameOver, GameEvent::RestartRequested) => {
                self.level_index = 0;
                self.state = GameState::Starting;
            },
            _ => {},
        }
    }
}

} // verus!
