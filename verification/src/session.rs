//! One loaded level in play: the occupancy grid, the trigger set, the door
//! latch, the player's coordinate and the move cooldown, together with the
//! move/push resolver and the win evaluator.

use crate::grid::EntityKind;
use crate::grid::MapSize;
use crate::grid::MoveOutcome;
use crate::grid::Occupant;
use crate::grid::TilePos;
use crate::grid::TileStorage;
use crate::grid::lemma_lin_in_range;
use crate::grid::lemma_lin_injective;
use crate::grid::lemma_occupied_count_update;
use crate::grid::occupied_count;
use vstd::prelude::*;

verus! {

/// A directional move intent: one of the four axis-aligned unit vectors.
/// When several are pending at once, a caller resolves them in the fixed
/// priority left, up, right, down.
#[derive(Clone, Copy, PartialEq, Eq, Structural, Debug)]
pub enum Direction {
    Left,
    Up,
    Right,
    Down,
}

impl Direction {
    pub open spec fn dx_spec(self) -> int {
        match self {
            Direction::Left => -1,
            Direction::Right => 1,
            _ => 0,
        }
    }

    pub open spec fn dy_spec(self) -> int {
        match self {
            Direction::Up => -1,
            Direction::Down => 1,
            _ => 0,
        }
    }

    /// Horizontal component of the unit vector.
    pub fn dx(self) -> (r: i32)
        ensures
            r == self.dx_spec(),
    {
        match self {
            Direction::Left => -1,
            Direction::Right => 1,
            _ => 0,
        }
    }

    /// Vertical component of the unit vector; rows grow downward.
    pub fn dy(self) -> (r: i32)
        ensures
            r == self.dy_spec(),
    {
        match self {
            Direction::Up => -1,
            Direction::Down => 1,
            _ => 0,
        }
    }
}

/// Resolve simultaneously pressed keys to at most one intent per elapsed
/// cooldown interval, in the fixed priority left, up, right, down.
pub fn intent_from_pressed(left: bool, up: bool, right: bool, down: bool) -> (r: Option<
    Direction,
>)
    ensures
        r == if left {
            Some(Direction::Left)
        } else if up {
            Some(Direction::Up)
        } else if right {
            Some(Direction::Right)
        } else if down {
            Some(Direction::Down)
        } else {
            None::<Direction>
        },
{
    if left {
        Some(Direction::Left)
    } else if up {
        Some(Direction::Up)
    } else if right {
        Some(Direction::Right)
    } else if down {
        Some(Direction::Down)
    } else {
        None
    }
}

/// The debounce interval that paces moves: a move registers only once the
/// elapsed time has reached the fixed duration. Time is integer
/// milliseconds.
#[derive(Clone, Copy, PartialEq, Eq, Structural, Debug)]
pub struct MoveCooldown {
    pub elapsed_ms: u32,
    pub duration_ms: u32,
    pub paused: bool,
}

impl MoveCooldown {
    pub open spec fn wf(self) -> bool {
        0 < self.duration_ms && self.elapsed_ms <= self.duration_ms
    }

    /// The cooldown has elapsed: a move may register now.
    pub open spec fn finished_spec(self) -> bool {
        self.elapsed_ms == self.duration_ms
    }

    /// The cooldown after `delta_ms` more milliseconds have passed: paused
    /// it stands still, otherwise it advances, capped at the duration.
    pub open spec fn tick_spec(self, delta_ms: u32) -> MoveCooldown {
        if self.paused {
            self
        } else if self.elapsed_ms + delta_ms <= self.duration_ms {
            MoveCooldown { elapsed_ms: (self.elapsed_ms + delta_ms) as u32, ..self }
        } else {
            MoveCooldown { elapsed_ms: self.duration_ms, ..self }
        }
    }

    pub fn new(duration_ms: u32, paused: bool) -> (r: MoveCooldown)
        requires
            0 < duration_ms,
        ensures
            r.wf(),
            r.duration_ms == duration_ms,
            r.elapsed_ms == 0,
            r.paused == paused,
    {
        MoveCooldown { elapsed_ms: 0, duration_ms, paused }
    }

    /// Let `delta_ms` milliseconds pass.
    pub fn tick(&mut self, delta_ms: u32)
        requires
            old(self).wf(),
        ensures
            final(self).wf(),
            *final(self) == old(self).tick_spec(delta_ms),
    {
        if !self.paused {
            if delta_ms <= self.duration_ms - self.elapsed_ms {
                self.elapsed_ms = self.elapsed_ms + delta_ms;
            } else {
                self.elapsed_ms = self.duration_ms;
            }
        }
    }

    /// Whether the cooldown has elapsed.
    pub fn is_finished(&self) -> (r: bool)
        ensures
            r == self.finished_spec(),
    {
        self.elapsed_ms == self.duration_ms
    }

    /// Start the debounce interval over.
    pub fn reset(&mut self)
        requires
            old(self).wf(),
        ensures
            final(self).wf(),
            *final(self) == (MoveCooldown { elapsed_ms: 0, ..*old(self) }),
    {
        self.elapsed_ms = 0;
    }

    /// Let the cooldown run; used once the entry reveal has finished.
    pub fn unpause(&mut self)
        ensures
            *final(self) == (MoveCooldown { paused: false, ..*old(self) }),
    {
        self.paused = false;
    }
}

/// The door's own linear index plus its latch: it starts closed and opens
/// exactly once per level, irreversibly, when every trigger is covered.
#[derive(Clone, Copy, PartialEq, Eq, Structural, Debug)]
pub struct DoorState {
    pub index: usize,
    pub is_open: bool,
}

/// Whether a cell's occupant is a box; an empty cell or any other occupant
/// does not cover a trigger.
pub open spec fn is_box_cell(cell: Option<Occupant>) -> bool {
    cell is Some && cell->0.kind is Box
}

/// Every trigger index holds a box in `cells`.
pub open spec fn triggers_covered_in(cells: Seq<Option<Occupant>>, triggers: Seq<usize>) -> bool {
    forall|k: int| 0 <= k < triggers.len() ==> is_box_cell(cells[(#[trigger] triggers[k]) as int])
}

/// What one call of the move/push resolver reports back; the caller derives
/// its presentation (walk animation, sprite flip) from this alone.
#[derive(Clone, Copy, PartialEq, Eq, Structural, Debug)]
pub enum MoveResult {
    /// The move cooldown has not elapsed; the intent was dropped.
    NotReady,
    /// The target lies outside the grid; rejected silently, and the
    /// cooldown keeps running.
    OutOfBounds,
    /// A simple move into a free cell.
    Moved,
    /// A box was pushed one cell onward and the player took its place;
    /// `won` reports what the win evaluator found afterwards.
    Pushed { won: bool },
    /// An immovable occupant (a wall, or the door while closed) blocks the
    /// target cell.
    BlockedByObstacle,
    /// A box blocks the target cell but cannot move on; neither the player
    /// nor the box moved.
    PushBlocked,
}

/// All the state of one loaded level while it is played.
pub struct LevelSession {
    pub grid: TileStorage,
    pub triggers: Vec<usize>,
    pub door: DoorState,
    pub player: TilePos,
    pub player_id: u64,
    pub level_index: usize,
    pub cooldown: MoveCooldown,
    pub facing_left: bool,
}

impl LevelSession {
    pub open spec fn size(self) -> MapSize {
        self.grid.size
    }

    pub open spec fn cells(self) -> Seq<Option<Occupant>> {
        self.grid.tiles@
    }

    /// The occupant that stands for the player in the grid.
    pub open spec fn player_occ(self) -> Occupant {
        Occupant { id: self.player_id, kind: EntityKind::Player }
    }

    /// The session invariant: the grid is the single source of truth, the
    /// player stands in it exactly once, every trigger index is a real
    /// cell, and the door occupies its cell exactly as long as it is
    /// closed. Trigger markers are never occupants.
    pub open spec fn wf(self) -> bool {
        &&& self.grid.wf()
        &&& self.player.wf(self.grid.size)
        &&& self.cells()[self.player.index as int] == Some(self.player_occ())
        &&& forall|i: int|
            0 <= i < self.cells().len() && (#[trigger] self.cells()[i]) is Some && self.cells()[
                i]->0.kind is Player ==> i == self.player.index
        &&& forall|k: int|
            0 <= k < self.triggers@.len() ==> (#[trigger] self.triggers@[k]) < self.cells().len()
        &&& self.door.index < self.cells().len()
        &&& !self.door.is_open ==> self.cells()[self.door.index as int] is Some && self.cells()[
            self.door.index as int]->0.kind is Door
        &&& forall|i: int|
            0 <= i < self.cells().len() && (#[trigger] self.cells()[i]) is Some && self.cells()[
                i]->0.kind is Door ==> i == self.door.index && !self.door.is_open
        &&& forall|i: int|
            0 <= i < self.cells().len() && (#[trigger] self.cells()[i]) is Some ==> !(
            self.cells()[i]->0.kind is TriggerMarker)
        &&& self.cooldown.wf()
    }

    /// The level is won exactly when every trigger currently holds a box.
    pub open spec fn all_triggers_covered(self) -> bool {
        triggers_covered_in(self.cells(), self.triggers@)
    }

    pub open spec fn target_x(self, dir: Direction) -> int {
        self.player.x + dir.dx_spec()
    }

    pub open spec fn target_y(self, dir: Direction) -> int {
        self.player.y + dir.dy_spec()
    }

    pub open spec fn target_in_bounds(self, dir: Direction) -> bool {
        self.size().in_bounds(self.target_x(dir), self.target_y(dir))
    }

    /// Linear index of the cell the player intends to step onto.
    pub open spec fn target_lin(self, dir: Direction) -> int {
        self.size().lin(self.target_x(dir), self.target_y(dir))
    }

    pub open spec fn box_x(self, dir: Direction) -> int {
        self.target_x(dir) + dir.dx_spec()
    }

    pub open spec fn box_y(self, dir: Direction) -> int {
        self.target_y(dir) + dir.dy_spec()
    }

    pub open spec fn box_in_bounds(self, dir: Direction) -> bool {
        self.size().in_bounds(self.box_x(dir), self.box_y(dir))
    }

    /// Linear index of the cell a pushed box would move onto: one further
    /// step in the same direction.
    pub open spec fn box_lin(self, dir: Direction) -> int {
        self.size().lin(self.box_x(dir), self.box_y(dir))
    }

    /// The grid after a successful push in direction `dir`: the box moved
    /// one cell onward, the player onto the box's old cell.
    pub open spec fn pushed_cells(self, dir: Direction) -> Seq<Option<Occupant>> {
        self.cells().update(self.box_lin(dir), self.cells()[self.target_lin(dir)]).update(
            self.player.index as int,
            None,
        ).update(self.target_lin(dir), Some(self.player_occ()))
    }

    /// Scan the trigger set: true exactly when every trigger index holds a
    /// box right now.
    pub fn triggers_covered(&self) -> (r: bool)
        requires
            self.wf(),
        ensures
            r == self.all_triggers_covered(),
    {
        let n = self.triggers.len();
        let mut covered = true;
        let mut k: usize = 0;
        while covered && k < n
            invariant
                self.wf(),
                n == self.triggers@.len(),
                k <= n,
                covered ==> forall|j: int|
                    0 <= j < k ==> is_box_cell(
                        self.grid.tiles@[(#[trigger] self.triggers@[j]) as int],
                    ),
                !covered ==> !self.all_triggers_covered(),
            decreases (if covered { 1int } else { 0int }), n - k,
        {
            let t = self.triggers[k];
            let cell = self.grid.occupant_at(t);
            let covers = match cell {
                Some(o) => matches!(o.kind, EntityKind::Box),
                None => false,
            };
            if covers {
                k = k + 1;
            } else {
                proof {
                    assert(!is_box_cell(self.grid.tiles@[self.triggers@[k as int] as int]));
                }
                covered = false;
            }
        }
        covered
    }
}

/// What one call of the win evaluator does to a session: `won` reports the
/// trigger scan; when the level is won and the door still closed, the door
/// latches open and its cell is vacated so the player can walk onto it;
/// in every other case nothing changes at all.
pub open spec fn win_eval_post(o: LevelSession, f: LevelSession, won: bool) -> bool {
    &&& won == o.all_triggers_covered()
    &&& f.door.is_open == (o.door.is_open || won)
    &&& if won && !o.door.is_open {
        &&& f.grid.size == o.grid.size
        &&& f.grid.tiles@ == o.grid.tiles@.update(o.door.index as int, None)
        &&& f.door.index == o.door.index
        &&& f.player == o.player
        &&& f.player_id == o.player_id
        &&& f.triggers@ == o.triggers@
        &&& f.level_index == o.level_index
        &&& f.cooldown == o.cooldown
        &&& f.facing_left == o.facing_left
    } else {
        f == o
    }
}

impl LevelSession {
    /// The win evaluator. Run after every successful push: when every
    /// trigger holds a box, open the door and clear its occupancy, exactly
    /// once per level; re-winning while it is already open is a no-op.
    pub fn evaluate_win(&mut self) -> (won: bool)
        requires
            old(self).wf(),
        ensures
            final(self).wf(),
            win_eval_post(*old(self), *final(self), won),
            occupied_count(final(self).grid.tiles@) + (if final(self).door.is_open && !old(self).door.is_open {
                1nat
            } else {
                0nat
            }) == occupied_count(old(self).grid.tiles@),
    {
        let covered = self.triggers_covered();
        if covered && !self.door.is_open {
            let d = self.door.index;
            proof {
                lemma_occupied_count_update(self.grid.tiles@, d as int, None);
            }
            self.grid.tiles.set(d, None);
            self.door.is_open = true;
            proof {
                let oc = old(self).grid.tiles@;
                let di = old(self).door.index as int;
                let p = old(self).player.index as int;
                lemma_lin_in_range(
                    old(self).grid.size,
                    old(self).player.x as int,
                    old(self).player.y as int,
                );
                assert(oc[p] == Some(old(self).player_occ()));
                assert(oc[di] is Some && oc[di]->0.kind is Door);
                assert(p != di);
                assert forall|i: int|
                    0 <= i < self.grid.tiles@.len() && (#[trigger] self.grid.tiles@[i])
                        is Some implies self.grid.tiles@[i] == oc[i] by {
                    assert(i != di);
                }
            }
        }
        covered
    }

    /// The movement resolver: validate and apply one directional move
    /// intent, including the single-box push, running the win evaluator
    /// after a successful push. Executed only when the move cooldown has
    /// elapsed; a target outside the grid is rejected silently with the
    /// cooldown left running, while a blocked move still consumes the
    /// player's turn-timing.
    pub fn player_move(&mut self, dir: Direction) -> (r: MoveResult)
        requires
            old(self).wf(),
        ensures
            final(self).wf(),
            final(self).grid.size == old(self).grid.size,
            final(self).triggers@ == old(self).triggers@,
            final(self).level_index == old(self).level_index,
            final(self).player_id == old(self).player_id,
            final(self).door.index == old(self).door.index,
            final(self).cooldown.duration_ms == old(self).cooldown.duration_ms,
            final(self).cooldown.paused == old(self).cooldown.paused,
            // the occupancy invariant: a move never creates or destroys an
            // occupant, except that opening the door removes the door's own
            occupied_count(final(self).grid.tiles@) + (if final(self).door.is_open && !old(self).door.is_open {
                1nat
            } else {
                0nat
            }) == occupied_count(old(self).grid.tiles@),
            // the cooldown gate: an early intent is dropped whole
            !old(self).cooldown.finished_spec() ==> r is NotReady && *final(self) == *old(self),
            // every processed intent updates the facing hint
            old(self).cooldown.finished_spec() ==> final(self).facing_left == (dir is Left),
            // boundary clamp: coordinate, grid, door and cooldown unchanged
            old(self).cooldown.finished_spec() && !old(self).target_in_bounds(dir) ==> r
                is OutOfBounds && final(self).grid.tiles@ == old(self).grid.tiles@ && final(self).player == old(self).player && final(self).door == old(self).door && final(self).cooldown == old(self).cooldown,
            // a simple move into a free cell
            old(self).cooldown.finished_spec() && old(self).target_in_bounds(dir) && old(self).cells()[old(self).target_lin(dir)] is None ==> r is Moved && final(self).player.x
                == old(self).target_x(dir) && final(self).player.y == old(self).target_y(dir)
                && final(self).player.index == old(self).target_lin(dir) && final(self).grid.tiles@ == old(self).cells().update(old(self).player.index as int, None).update(
                old(self).target_lin(dir),
                Some(old(self).player_occ()),
            ) && final(self).door == old(self).door && final(self).cooldown.elapsed_ms == 0,
            // an immovable blocker: nothing moves, the turn is consumed
            old(self).cooldown.finished_spec() && old(self).target_in_bounds(dir) && old(self).cells()[old(self).target_lin(dir)] is Some && !(old(self).cells()[old(self).target_lin(dir)]->0.kind is Box) ==> r is BlockedByObstacle && final(self).grid.tiles@ == old(self).grid.tiles@ && final(self).player == old(self).player
                && final(self).door == old(self).door && final(self).cooldown.elapsed_ms == 0,
            // a box that cannot move on blocks the whole compound move
            old(self).cooldown.finished_spec() && old(self).target_in_bounds(dir) && old(self).cells()[old(self).target_lin(dir)] is Some && old(self).cells()[old(self).target_lin(dir)]->0.kind is Box && !(old(self).box_in_bounds(dir) && old(self).cells()[old(self).box_lin(dir)] is None) ==> r is PushBlocked && final(self).grid.tiles@ == old(self).grid.tiles@ && final(self).player == old(self).player
                && final(self).door == old(self).door && final(self).cooldown.elapsed_ms == 0,
            // the push: the box one cell onward, the player onto its old
            // cell, then the win evaluator
            old(self).cooldown.finished_spec() && old(self).target_in_bounds(dir) && old(self).cells()[old(self).target_lin(dir)] is Some && old(self).cells()[old(self).target_lin(dir)]->0.kind is Box && old(self).box_in_bounds(dir) && old(self).cells()[old(self).box_lin(dir)] is None ==> ({
                let moved = old(self).pushed_cells(dir);
                let won = triggers_covered_in(moved, old(self).triggers@);
                r == (MoveResult::Pushed { won }) && final(self).player.x == old(self).target_x(
                    dir,
                ) && final(self).player.y == old(self).target_y(dir) && final(self).player.index
                    == old(self).target_lin(dir) && final(self).door.is_open == (old(self).door.is_open || won) && final(self).grid.tiles@ == (if won && !old(self).door.is_open {
                    moved.update(old(self).door.index as int, None)
                } else {
                    moved
                }) && final(self).cooldown.elapsed_ms == 0
            }),
    {
        if !self.cooldown.is_finished() {
            return MoveResult::NotReady;
        }
        self.facing_left = matches!(dir, Direction::Left);
        let dx = dir.dx();
        let dy = dir.dy();
        let width = self.grid.size.width;
        let height = self.grid.size.height;
        let tx = self.player.x + dx;
        let ty = self.player.y + dy;
        if tx < 0 || tx >= width || ty < 0 || ty >= height {
            return MoveResult::OutOfBounds;
        }
        proof {
            lemma_lin_in_range(self.grid.size, tx as int, ty as int);
            lemma_lin_in_range(self.grid.size, self.player.x as int, self.player.y as int);
            if self.grid.size.lin(self.player.x as int, self.player.y as int) == self.grid.size.lin(
                tx as int,
                ty as int,
            ) {
                lemma_lin_injective(
                    self.grid.size,
                    self.player.x as int,
                    self.player.y as int,
                    tx as int,
                    ty as int,
                );
            }
        }
        let target = self.player.add_and_clone(dx, dy, width);
        let player_occ = Occupant { id: self.player_id, kind: EntityKind::Player };
        let ghost oc = self.grid.tiles@;
        let first = self.grid.move_tile(player_occ, self.player.index, target.index);
        match first {
            MoveOutcome::Moved => {
                proof {
                    lemma_occupied_count_update(oc, old(self).player.index as int, None);
                    lemma_occupied_count_update(
                        oc.update(old(self).player.index as int, None),
                        old(self).target_lin(dir),
                        Some(old(self).player_occ()),
                    );
                }
                self.player = target;
                self.cooldown.reset();
                proof {
                    let nc = self.grid.tiles@;
                    let p = old(self).player.index as int;
                    let t = old(self).target_lin(dir);
                    assert forall|i: int|
                        0 <= i < nc.len() && (#[trigger] nc[i]) is Some && nc[i]->0.kind
                            is Player implies i == t by {
                        assert(i != p);
                        if i != t {
                            assert(nc[i] == oc[i]);
                        }
                    }
                    assert forall|i: int|
                        0 <= i < nc.len() && (#[trigger] nc[i]) is Some && nc[i]->0.kind
                            is Door implies i == self.door.index && !self.door.is_open by {
                        assert(nc[i] == oc[i]);
                    }
                    if !self.door.is_open {
                        assert(oc[self.door.index as int] is Some);
                        assert(self.door.index != p && self.door.index != t);
                    }
                    assert forall|i: int|
                        0 <= i < nc.len() && (#[trigger] nc[i]) is Some implies !(nc[i]->0.kind
                            is TriggerMarker) by {
                        if i != t {
                            assert(nc[i] == oc[i]);
                        }
                    }
                }
                MoveResult::Moved
            },
            MoveOutcome::Blocked(blocking) => {
                if !matches!(blocking.kind, EntityKind::Box) {
                    self.cooldown.reset();
                    return MoveResult::BlockedByObstacle;
                }
                let bx = tx + dx;
                let by = ty + dy;
                if bx < 0 || bx >= width || by < 0 || by >= height {
                    self.cooldown.reset();
                    return MoveResult::PushBlocked;
                }
                proof {
                    lemma_lin_in_range(self.grid.size, bx as int, by as int);
                    if self.grid.size.lin(tx as int, ty as int) == self.grid.size.lin(
                        bx as int,
                        by as int,
                    ) {
                        lemma_lin_injective(
                            self.grid.size,
                            tx as int,
                            ty as int,
                            bx as int,
                            by as int,
                        );
                    }
                    if self.grid.size.lin(self.player.x as int, self.player.y as int)
                        == self.grid.size.lin(bx as int, by as int) {
                        lemma_lin_injective(
                            self.grid.size,
                            self.player.x as int,
                            self.player.y as int,
                            bx as int,
                            by as int,
                        );
                    }
                }
                let box_target = target.add_and_clone(dx, dy, width);
                let second = self.grid.move_tile(blocking, target.index, box_target.index);
                match second {
                    MoveOutcome::Blocked(_) => {
                        self.cooldown.reset();
                        MoveResult::PushBlocked
                    },
                    MoveOutcome::Moved => {
                        let p = self.player.index;
                        self.grid.tiles.set(p, None);
                        self.grid.tiles.set(target.index, Some(player_occ));
                        self.player = target;
                        proof {
                            let nc = self.grid.tiles@;
                            let pi = old(self).player.index as int;
                            let t = old(self).target_lin(dir);
                            let b = old(self).box_lin(dir);
                            assert(nc =~= old(self).pushed_cells(dir));
                            lemma_occupied_count_update(oc, b, Some(blocking));
                            lemma_occupied_count_update(oc.update(b, Some(blocking)), pi, None);
                            lemma_occupied_count_update(
                                oc.update(b, Some(blocking)).update(pi, None),
                                t,
                                Some(old(self).player_occ()),
                            );
                            assert(occupied_count(nc) == occupied_count(oc));
                            assert forall|i: int|
                                0 <= i < nc.len() && (#[trigger] nc[i]) is Some && nc[i]->0.kind
                                    is Player implies i == t by {
                                assert(i != pi);
                                if i != t && i != b {
                                    assert(nc[i] == oc[i]);
                                }
                            }
                            assert forall|i: int|
                                0 <= i < nc.len() && (#[trigger] nc[i]) is Some && nc[i]->0.kind
                                    is Door implies i == self.door.index && !self.door.is_open by {
                                assert(i != pi && i != t && i != b);
                                assert(nc[i] == oc[i]);
                            }
                            if !self.door.is_open {
                                assert(oc[self.door.index as int] is Some && oc[
                                    self.door.index as int]->0.kind is Door);
                                assert(self.door.index != pi && self.door.index != t
                                    && self.door.index != b);
                            }
                            assert forall|i: int|
                                0 <= i < nc.len() && (#[trigger] nc[i]) is Some implies !(
                            nc[i]->0.kind is TriggerMarker) by {
                                if i != t && i != b {
                                    assert(nc[i] == oc[i]);
                                }
                            }
                            assert(self.wf());
                        }
                        let won = self.evaluate_win();
                        self.cooldown.reset();
                        MoveResult::Pushed { won }
                    },
                }
            },
        }
    }

    /// The door watch: the level advances when the player stands on the
    /// door's cell with the cooldown elapsed — possible only once the door
    /// has opened, since a closed door still occupies its cell.
    pub fn win_condition(&self) -> (r: bool)
        requires
            self.wf(),
        ensures
            r == (self.player.index == self.door.index && self.cooldown.finished_spec()),
            r ==> self.door.is_open,
    {
        self.player.index == self.door.index && self.cooldown.is_finished()
    }
}

/// The win evaluator is idempotent: run twice in the same state, without
/// intervening moves, it reports the same verdict both times, the door
/// shows the same open/closed state both times, and the second run changes
/// nothing at all.
pub proof fn lemma_win_evaluator_idempotent(
    s0: LevelSession,
    s1: LevelSession,
    s2: LevelSession,
    won1: bool,
    won2: bool,
)
    requires
        s0.wf(),
        win_eval_post(s0, s1, won1),
        win_eval_post(s1, s2, won2),
    ensures
        won2 == won1,
        s2.door.is_open == s1.door.is_open,
        s2 == s1,
{
    lemma_lin_in_range(s0.grid.size, s0.player.x as int, s0.player.y as int);
    if won1 && !s0.door.is_open {
        // the newly opened door's cell was no covered trigger: a covered
        // trigger holds a box, the door's cell held the door itself
        let d = s0.door.index as int;
        assert forall|k: int| 0 <= k < s1.triggers@.len() implies is_box_cell(
            s1.cells()[(#[trigger] s1.triggers@[k]) as int],
        ) by {
            let t = s0.triggers@[k] as int;
            assert(is_box_cell(s0.cells()[t]));
            assert(t != d);
            assert(s1.cells()[t] == s0.cells()[t]);
        }
        assert(won2);
    } else {
        assert(s1 == s0);
    }
}

} // verus!
