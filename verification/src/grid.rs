//! The tile grid: dimensions, cell coordinates with precomputed linear
//! indices, and the occupancy index that records which entity stands on
//! which cell.

use vstd::prelude::*;

verus! {

/// What an entity placed in a level is. Walls and the door are static
/// blockers, boxes are movable blockers, the player is the one moving
/// entity. Trigger markers are floor decorations: they are never occupants
/// of the grid.
#[derive(Clone, Copy, PartialEq, Eq, Structural, Debug)]
pub enum EntityKind {
    Player,
    Wall,
    Box,
    Door,
    TriggerMarker,
}

/// An occupant of a grid cell: a stable identifier together with its kind,
/// so that resolving a collision never needs a lookup elsewhere.
#[derive(Clone, Copy, PartialEq, Eq, Structural, Debug)]
pub struct Occupant {
    pub id: u64,
    pub kind: EntityKind,
}

/// Grid dimensions, positive and fixed for the lifetime of one loaded level.
#[derive(Clone, Copy, PartialEq, Eq, Structural, Debug)]
pub struct MapSize {
    pub width: i32,
    pub height: i32,
}

impl MapSize {
    /// Positive dimensions whose cell count fits the index arithmetic.
    pub open spec fn wf(self) -> bool {
        0 < self.width && 0 < self.height && self.width * self.height <= i32::MAX
    }

    pub open spec fn cell_count(self) -> int {
        self.width * self.height
    }

    pub open spec fn in_bounds(self, x: int, y: int) -> bool {
        0 <= x < self.width && 0 <= y < self.height
    }

    /// The linear index of the cell at (x, y): the grid-occupancy key.
    pub open spec fn lin(self, x: int, y: int) -> int {
        x + y * self.width
    }
}

/// Every in-bounds coordinate has a linear index within the cell count.
pub proof fn lemma_lin_in_range(size: MapSize, x: int, y: int)
    requires
        size.wf(),
        size.in_bounds(x, y),
    ensures
        0 <= size.lin(x, y) < size.cell_count(),
{
    assert(0 <= x + y * size.width < size.width * size.height) by (nonlinear_arith)
        requires
            0 <= x < size.width,
            0 <= y < size.height;
}

/// Distinct in-bounds coordinates have distinct linear indices.
pub proof fn lemma_lin_injective(size: MapSize, x1: int, y1: int, x2: int, y2: int)
    requires
        size.wf(),
        size.in_bounds(x1, y1),
        size.in_bounds(x2, y2),
        size.lin(x1, y1) == size.lin(x2, y2),
    ensures
        x1 == x2 && y1 == y2,
{
    assert(x1 == x2 && y1 == y2) by (nonlinear_arith)
        requires
            0 <= x1 < size.width,
            0 <= x2 < size.width,
            x1 + y1 * size.width == x2 + y2 * size.width;
}

/// Scanning the grid row by row never decreases the linear index, even
/// through the step from the end of one row to the start of the next.
pub proof fn lemma_lin_row_major(size: MapSize, x1: int, y1: int, x2: int, y2: int)
    requires
        size.wf(),
        0 <= x1 <= size.width,
        0 <= x2 <= size.width,
        0 <= y1,
        0 <= y2,
        y1 < y2 || (y1 == y2 && x1 <= x2),
    ensures
        size.lin(x1, y1) <= size.lin(x2, y2),
{
    assert(x1 + y1 * size.width <= x2 + y2 * size.width) by (nonlinear_arith)
        requires
            0 <= x1 <= size.width,
            0 <= x2 <= size.width,
            0 < size.width,
            y1 < y2 || (y1 == y2 && x1 <= x2);
}

/// Every linear index within the cell count is the index of exactly one
/// in-bounds coordinate, recovered by division and remainder.
pub proof fn lemma_lin_decompose(size: MapSize, v: int)
    requires
        size.wf(),
        0 <= v < size.cell_count(),
    ensures
        size.in_bounds(v % (size.width as int), v / (size.width as int)),
        size.lin(v % (size.width as int), v / (size.width as int)) == v,
{
    let w = size.width as int;
    let h = size.height as int;
    assert(0 <= v % w < w && 0 <= v / w < h && v % w + (v / w) * w == v) by (nonlinear_arith)
        requires
            0 < w,
            0 < h,
            0 <= v < w * h;
}

/// A grid-relative cell coordinate paired with its precomputed linear index.
/// The index is recomputed whenever the coordinate changes, never kept stale.
#[derive(Clone, Copy, PartialEq, Eq, Structural, Debug)]
pub struct TilePos {
    pub x: i32,
    pub y: i32,
    pub index: usize,
}

impl TilePos {
    /// In bounds for `size`, with the linear index in step with (x, y).
    pub open spec fn wf(self, size: MapSize) -> bool {
        size.in_bounds(self.x as int, self.y as int)
            && self.index == size.lin(self.x as int, self.y as int)
    }

    pub fn new(x: i32, y: i32, width: i32) -> (r: TilePos)
        requires
            0 <= x < width,
            0 <= y,
            x + y * width <= usize::MAX,
        ensures
            r.x == x,
            r.y == y,
            r.index == x + y * width,
    {
        proof {
            assert(0 <= y * width) by (nonlinear_arith)
                requires 0 <= y, 0 < width;
        }
        TilePos { x, y, index: (x as usize) + (y as usize) * (width as usize) }
    }

    /// The coordinate one step of (dx, dy) away, with its index recomputed.
    pub fn add_and_clone(&self, dx: i32, dy: i32, width: i32) -> (r: TilePos)
        requires
            0 <= self.x + dx < width,
            0 <= self.y + dy <= i32::MAX,
            (self.x + dx) + (self.y + dy) * width <= usize::MAX,
        ensures
            r.x == self.x + dx,
            r.y == self.y + dy,
            r.index == (self.x + dx) + (self.y + dy) * width,
    {
        let x = self.x + dx;
        let y = self.y + dy;
        TilePos::new(x, y, width)
    }
}

/// The outcome of the collision primitive `TileStorage::move_tile`.
#[derive(Clone, Copy, PartialEq, Eq, Structural, Debug)]
pub enum MoveOutcome {
    /// The target cell was free; the occupant now stands there.
    Moved,
    /// The target cell already held this occupant; nothing changed.
    Blocked(Occupant),
}

/// The occupancy index: the single source of truth for what stands where.
/// One cell holds at most one occupant by construction.
pub struct TileStorage {
    pub tiles: Vec<Option<Occupant>>,
    pub size: MapSize,
}

impl TileStorage {
    pub open spec fn wf(self) -> bool {
        self.size.wf() && self.tiles@.len() == self.size.cell_count()
    }

    /// A fresh grid of `size` with every cell vacant.
    pub fn new(size: MapSize) -> (r: TileStorage)
        requires
            size.wf(),
        ensures
            r.wf(),
            r.size == size,
            forall|i: int| 0 <= i < r.tiles@.len() ==> r.tiles@[i] is None,
    {
        let count = (size.width as usize) * (size.height as usize);
        let mut tiles: Vec<Option<Occupant>> = Vec::new();
        let mut i: usize = 0;
        while i < count
            invariant
                i <= count,
                count == size.cell_count(),
                tiles@.len() == i,
                forall|j: int| 0 <= j < i ==> tiles@[j] is None,
            decreases count - i,
        {
            tiles.push(None);
            i += 1;
        }
        TileStorage { tiles, size }
    }

    /// Read-only lookup of the occupant at a linear index.
    pub fn occupant_at(&self, index: usize) -> (r: Option<Occupant>)
        requires
            index < self.tiles@.len(),
        ensures
            r == self.tiles@[index as int],
    {
        self.tiles[index]
    }

    /// The core collision primitive. If the target cell holds an occupant,
    /// nothing at all changes and that occupant is reported; otherwise the
    /// old cell is vacated and the new one occupied, atomically: no state
    /// with both or neither cell occupied is ever observable.
    ///
    /// Bounds are the caller's responsibility: the indices must come from
    /// validated coordinates.
    pub fn move_tile(&mut self, entity: Occupant, old_index: usize, new_index: usize) -> (r:
        MoveOutcome)
        requires
            old_index < old(self).tiles@.len(),
            new_index < old(self).tiles@.len(),
        ensures
            final(self).size == old(self).size,
            final(self).tiles@.len() == old(self).tiles@.len(),
            match r {
                MoveOutcome::Blocked(b) => *final(self) == *old(self) && old(self).tiles@[
                    new_index as int] == Some(b),
                MoveOutcome::Moved => old(self).tiles@[new_index as int] is None && final(
                    self).tiles@ == old(self).tiles@.update(old_index as int, None).update(
                    new_index as int, Some(entity)),
            },
    {
        if let Some(blocking) = self.tiles[new_index] {
            MoveOutcome::Blocked(blocking)
        } else {
            self.tiles.set(old_index, None);
            self.tiles.set(new_index, Some(entity));
            MoveOutcome::Moved
        }
    }
}

/// How many cells of `cells` hold an occupant.
pub open spec fn occupied_count(cells: Seq<Option<Occupant>>) -> nat
    decreases cells.len(),
{
    if cells.len() == 0 {
        0
    } else {
        occupied_count(cells.drop_last()) + (if cells.last() is Some {
            1nat
        } else {
            0nat
        })
    }
}

/// A grid with every cell vacant holds no occupant.
pub proof fn lemma_occupied_count_none(cells: Seq<Option<Occupant>>)
    requires
        forall|i: int| 0 <= i < cells.len() ==> cells[i] is None,
    ensures
        occupied_count(cells) == 0,
    decreases cells.len(),
{
    if cells.len() > 0 {
        lemma_occupied_count_none(cells.drop_last());
    }
}

/// Overwriting one cell changes the occupied count by exactly the
/// occupancy of the old and new contents of that cell.
pub proof fn lemma_occupied_count_update(
    cells: Seq<Option<Occupant>>,
    i: int,
    v: Option<Occupant>,
)
    requires
        0 <= i < cells.len(),
    ensures
        occupied_count(cells.update(i, v)) + (if cells[i] is Some {
            1nat
        } else {
            0nat
        }) == occupied_count(cells) + (if v is Some {
            1nat
        } else {
            0nat
        }),
    decreases cells.len(),
{
    let updated = cells.update(i, v);
    if i == cells.len() - 1 {
        assert(updated.drop_last() =~= cells.drop_last());
    } else {
        assert(updated.drop_last() =~= cells.drop_last().update(i, v));
        lemma_occupied_count_update(cells.drop_last(), i, v);
    }
}

} // verus!
