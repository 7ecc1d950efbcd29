//! The level loader: parse an ASCII level definition into grid dimensions,
//! a populated occupancy grid, the initial player coordinate, the trigger
//! set and the door, rejecting definitions that cannot make a playable
//! level.
//!
//! The alphabet: `#` wall, `.` or space floor, `@` player, `b` box, `o`
//! trigger, `D` door, newline row separator. Rows may vary in length; the
//! grid is as wide as the longest row and rows are left-aligned within it.
//! An unrecognized symbol is ignored, with its cell reported as a
//! diagnostic.

use crate::grid::EntityKind;
use crate::grid::MapSize;
use crate::grid::Occupant;
use crate::grid::TilePos;
use crate::grid::TileStorage;
use crate::grid::lemma_lin_decompose;
use crate::grid::lemma_lin_in_range;
use crate::grid::lemma_lin_injective;
use crate::grid::lemma_lin_row_major;
use crate::grid::lemma_occupied_count_none;
use crate::grid::lemma_occupied_count_update;
use crate::grid::occupied_count;
use crate::session::DoorState;
use crate::session::LevelSession;
use crate::session::MoveCooldown;
use vstd::prelude::*;

verus! {

pub const NEWLINE: u8 = 10;

pub const WALL_SYMBOL: u8 = 35;

pub const BOX_SYMBOL: u8 = 98;

pub const TRIGGER_SYMBOL: u8 = 111;

pub const DOOR_SYMBOL: u8 = 68;

pub const PLAYER_SYMBOL: u8 = 64;

pub const DOT_FLOOR_SYMBOL: u8 = 46;

pub const SPACE_FLOOR_SYMBOL: u8 = 32;

/// Position of the first newline in `t`, or `t.len()` when there is none.
pub open spec fn first_newline(t: Seq<u8>) -> nat
    decreases t.len(),
{
    if t.len() == 0 {
        0
    } else if t[0] == NEWLINE {
        0
    } else {
        1 + first_newline(t.drop_first())
    }
}

/// The rows of a level definition: maximal newline-free chunks, with a
/// trailing newline closing the last row rather than opening an empty one.
/// An empty text has no rows.
pub open spec fn split_rows(t: Seq<u8>) -> Seq<Seq<u8>>
    decreases t.len(),
{
    if t.len() == 0 {
        seq![]
    } else {
        let i = first_newline(t) as int;
        if i == t.len() {
            seq![t]
        } else {
            proof {
                lemma_first_newline_bound(t);
            }
            seq![t.take(i)] + split_rows(t.skip(i + 1))
        }
    }
}

/// The width of a level: the length of its longest row.
pub open spec fn max_row_len(rows: Seq<Seq<u8>>) -> int
    decreases rows.len(),
{
    if rows.len() == 0 {
        0
    } else {
        let rest = max_row_len(rows.drop_last());
        if rows.last().len() > rest {
            rows.last().len() as int
        } else {
            rest
        }
    }
}

/// The symbol of the cell at (x, y): the row's byte there, or a space
/// where the row ends before column x.
pub open spec fn symbol_at(rows: Seq<Seq<u8>>, x: int, y: int) -> u8 {
    if x < rows[y].len() {
        rows[y][x]
    } else {
        SPACE_FLOOR_SYMBOL
    }
}

/// How many cells of one row hold the symbol `c`.
pub open spec fn count_in_row(row: Seq<u8>, c: u8) -> nat
    decreases row.len(),
{
    if row.len() == 0 {
        0
    } else {
        count_in_row(row.drop_last(), c) + (if row.last() == c {
            1nat
        } else {
            0nat
        })
    }
}

/// How many cells of the whole definition hold the symbol `c`.
pub open spec fn count_symbol(rows: Seq<Seq<u8>>, c: u8) -> nat
    decreases rows.len(),
{
    if rows.len() == 0 {
        0
    } else {
        count_symbol(rows.drop_last(), c) + count_in_row(rows.last(), c)
    }
}

/// A symbol of the level alphabet; anything else draws a diagnostic.
pub open spec fn is_recognized(c: u8) -> bool {
    c == WALL_SYMBOL || c == BOX_SYMBOL || c == TRIGGER_SYMBOL || c == DOOR_SYMBOL || c
        == PLAYER_SYMBOL || c == DOT_FLOOR_SYMBOL || c == SPACE_FLOOR_SYMBOL
}

/// What the occupancy grid holds for a cell with symbol `c`, the occupant
/// identifier being the cell's own linear index. Floors, triggers and
/// unrecognized symbols leave the cell vacant.
pub open spec fn cell_for_symbol(c: u8, id: u64) -> Option<Occupant> {
    if c == WALL_SYMBOL {
        Some(Occupant { id, kind: EntityKind::Wall })
    } else if c == BOX_SYMBOL {
        Some(Occupant { id, kind: EntityKind::Box })
    } else if c == DOOR_SYMBOL {
        Some(Occupant { id, kind: EntityKind::Door })
    } else if c == PLAYER_SYMBOL {
        Some(Occupant { id, kind: EntityKind::Player })
    } else {
        None
    }
}

/// The first newline lies no further than the end of the text.
pub proof fn lemma_first_newline_bound(t: Seq<u8>)
    ensures
        first_newline(t) <= t.len(),
    decreases t.len(),
{
    if t.len() > 0 && t[0] != NEWLINE {
        lemma_first_newline_bound(t.drop_first());
    }
}

proof fn lemma_first_newline_no_newline(t: Seq<u8>)
    requires
        forall|i: int| 0 <= i < t.len() ==> t[i] != NEWLINE,
    ensures
        first_newline(t) == t.len(),
    decreases t.len(),
{
    if t.len() > 0 {
        lemma_first_newline_no_newline(t.drop_first());
    }
}

proof fn lemma_first_newline_concat(u: Seq<u8>, v: Seq<u8>)
    requires
        forall|i: int| 0 <= i < u.len() ==> u[i] != NEWLINE,
        v.len() > 0,
        v[0] == NEWLINE,
    ensures
        first_newline(u + v) == u.len(),
    decreases u.len(),
{
    if u.len() == 0 {
        assert(u + v =~= v);
    } else {
        assert((u + v).drop_first() =~= u.drop_first() + v);
        lemma_first_newline_concat(u.drop_first(), v);
    }
}

/// Closing a newline-free chunk `u` against the rest of the text: the
/// chunk becomes the next row.
proof fn lemma_split_rows_step(u: Seq<u8>, v: Seq<u8>)
    requires
        forall|i: int| 0 <= i < u.len() ==> u[i] != NEWLINE,
        v.len() > 0,
        v[0] == NEWLINE,
    ensures
        split_rows(u + v) == seq![u] + split_rows(v.drop_first()),
{
    lemma_first_newline_concat(u, v);
    let t = u + v;
    assert(t.len() > 0);
    assert(first_newline(t) == u.len() < t.len());
    assert(t.take(u.len() as int) =~= u);
    assert(t.skip(u.len() + 1 as int) =~= v.drop_first());
}

/// A newline-free text is a single row, or no row at all when empty.
proof fn lemma_split_rows_last(u: Seq<u8>)
    requires
        forall|i: int| 0 <= i < u.len() ==> u[i] != NEWLINE,
    ensures
        split_rows(u) == if u.len() == 0 {
            Seq::<Seq<u8>>::empty()
        } else {
            seq![u]
        },
{
    if u.len() > 0 {
        lemma_first_newline_no_newline(u);
    }
    assert(split_rows(u) =~= if u.len() == 0 {
        Seq::<Seq<u8>>::empty()
    } else {
        seq![u]
    });
}

/// Split a level definition into its rows.
pub fn split_lines(text: &Vec<u8>) -> (rows: Vec<Vec<u8>>)
    ensures
        rows.deep_view() == split_rows(text@),
{
    let mut rows: Vec<Vec<u8>> = Vec::new();
    let mut cur: Vec<u8> = Vec::new();
    let mut i: usize = 0;
    proof {
        assert(rows.deep_view() =~= Seq::<Seq<u8>>::empty());
        assert(cur@ + text@.skip(0) =~= text@);
        assert(Seq::<Seq<u8>>::empty() + split_rows(text@) =~= split_rows(text@));
    }
    while i < text.len()
        invariant
            i <= text@.len(),
            forall|j: int| 0 <= j < cur@.len() ==> cur@[j] != NEWLINE,
            split_rows(text@) == rows.deep_view() + split_rows(cur@ + text@.skip(i as int)),
        decreases text@.len() - i,
    {
        let c = text[i];
        let ghost prevrows = rows.deep_view();
        let ghost prevcur = cur@;
        let ghost rest = text@.skip(i as int);
        if c == NEWLINE {
            rows.push(cur);
            cur = Vec::new();
            proof {
                assert(rest.len() > 0 && rest[0] == NEWLINE);
                lemma_split_rows_step(prevcur, rest);
                assert(rest.drop_first() =~= text@.skip(i + 1));
                assert(rows.deep_view() =~~= prevrows + seq![prevcur]);
                assert((prevrows + seq![prevcur]) + split_rows(text@.skip(i + 1)) =~= prevrows + (
                seq![prevcur] + split_rows(text@.skip(i + 1))));
                assert(cur@ + text@.skip(i + 1) =~= text@.skip(i + 1));
            }
        } else {
            cur.push(c);
            proof {
                assert(rest[0] == c);
                assert(cur@ + text@.skip(i + 1) =~= prevcur + rest);
            }
        }
        i = i + 1;
    }
    proof {
        assert(cur@ + text@.skip(i as int) =~= cur@);
        lemma_split_rows_last(cur@);
    }
    let ghost prevrows = rows.deep_view();
    let ghost prevcur = cur@;
    if cur.len() > 0 {
        rows.push(cur);
        proof {
            assert(rows.deep_view() =~~= prevrows + seq![prevcur]);
        }
    } else {
        proof {
            assert(prevrows + Seq::<Seq<u8>>::empty() =~= prevrows);
        }
    }
    rows
}

/// A longest row is no shorter than any row.
proof fn lemma_max_row_len_ge(rows: Seq<Seq<u8>>, y: int)
    requires
        0 <= y < rows.len(),
    ensures
        rows[y].len() <= max_row_len(rows),
    decreases rows.len(),
{
    if y < rows.len() - 1 {
        lemma_max_row_len_ge(rows.drop_last(), y);
    }
}

proof fn lemma_count_in_row_step(row: Seq<u8>, c: u8, x: int)
    requires
        0 <= x < row.len(),
    ensures
        count_in_row(row.take(x + 1), c) == count_in_row(row.take(x), c) + (if row[x] == c {
            1nat
        } else {
            0nat
        }),
{
    assert(row.take(x + 1).drop_last() =~= row.take(x));
    assert(row.take(x + 1).last() == row[x]);
}

proof fn lemma_count_rows_step(rows: Seq<Seq<u8>>, c: u8, y: int)
    requires
        0 <= y < rows.len(),
    ensures
        count_symbol(rows.take(y + 1), c) == count_symbol(rows.take(y), c) + count_in_row(
            rows[y],
            c,
        ),
{
    assert(rows.take(y + 1).drop_last() =~= rows.take(y));
    assert(rows.take(y + 1).last() == rows[y]);
}

/// Rows that are all empty hold no symbol at all.
proof fn lemma_count_empty_rows(rows: Seq<Seq<u8>>, c: u8)
    requires
        max_row_len(rows) <= 0,
    ensures
        count_symbol(rows, c) == 0,
    decreases rows.len(),
{
    if rows.len() > 0 {
        lemma_count_empty_rows(rows.drop_last(), c);
    }
}

/// A cell the row-major scan, standing at column `x` of row `y`, has
/// already visited.
pub open spec fn scanned(x: int, y: int, cx: int, cy: int) -> bool {
    cy < y || (cy == y && cx < x)
}

/// The linear indices collected so far for one symbol class: strictly
/// ascending, all before the scan point, and holding exactly the visited
/// cells whose symbol the class accepts.
spec fn marks_ok(
    rows: Seq<Seq<u8>>,
    size: MapSize,
    marks: Seq<usize>,
    sym_ok: spec_fn(u8) -> bool,
    x: int,
    y: int,
) -> bool {
    &&& forall|k1: int, k2: int| 0 <= k1 < k2 < marks.len() ==> marks[k1] < marks[k2]
    &&& forall|k: int| 0 <= k < marks.len() ==> (#[trigger] marks[k]) < size.lin(x, y)
    &&& forall|cx: int, cy: int|
        size.in_bounds(cx, cy) && scanned(x, y, cx, cy) ==> (sym_ok(
            #[trigger] symbol_at(rows, cx, cy),
        ) <==> marks.contains(size.lin(cx, cy) as usize))
}

proof fn lemma_marks_push(
    rows: Seq<Seq<u8>>,
    size: MapSize,
    marks: Seq<usize>,
    sym_ok: spec_fn(u8) -> bool,
    x: int,
    y: int,
)
    requires
        size.wf(),
        size.in_bounds(x, y),
        marks_ok(rows, size, marks, sym_ok, x, y),
        sym_ok(symbol_at(rows, x, y)),
    ensures
        marks_ok(rows, size, marks.push(size.lin(x, y) as usize), sym_ok, x + 1, y),
{
    lemma_lin_in_range(size, x, y);
    let v = size.lin(x, y) as usize;
    let m2 = marks.push(v);
    assert forall|k1: int, k2: int| 0 <= k1 < k2 < m2.len() implies m2[k1] < m2[k2] by {
        if k2 == marks.len() {
            assert(marks[k1] < size.lin(x, y));
        }
    }
    assert forall|cx: int, cy: int|
        size.in_bounds(cx, cy) && scanned(x + 1, y, cx, cy) implies (sym_ok(
        #[trigger] symbol_at(rows, cx, cy),
    ) <==> m2.contains(size.lin(cx, cy) as usize)) by {
        let u = size.lin(cx, cy) as usize;
        lemma_lin_in_range(size, cx, cy);
        if cx == x && cy == y {
            assert(m2[marks.len() as int] == v);
            assert(m2.contains(v));
        } else {
            assert(scanned(x, y, cx, cy));
            if size.lin(cx, cy) == size.lin(x, y) {
                lemma_lin_injective(size, cx, cy, x, y);
            }
            assert(u != v);
            if marks.contains(u) {
                let j = choose|j: int| 0 <= j < marks.len() && marks[j] == u;
                assert(m2[j] == u);
                assert(m2.contains(u));
            }
            if m2.contains(u) {
                let j = choose|j: int| 0 <= j < m2.len() && m2[j] == u;
                assert(j < marks.len());
                assert(marks.contains(u));
            }
        }
    }
}

proof fn lemma_marks_keep(
    rows: Seq<Seq<u8>>,
    size: MapSize,
    marks: Seq<usize>,
    sym_ok: spec_fn(u8) -> bool,
    x: int,
    y: int,
)
    requires
        size.wf(),
        size.in_bounds(x, y),
        marks_ok(rows, size, marks, sym_ok, x, y),
        !sym_ok(symbol_at(rows, x, y)),
    ensures
        marks_ok(rows, size, marks, sym_ok, x + 1, y),
{
    lemma_lin_in_range(size, x, y);
    assert forall|cx: int, cy: int|
        size.in_bounds(cx, cy) && scanned(x + 1, y, cx, cy) implies (sym_ok(
        #[trigger] symbol_at(rows, cx, cy),
    ) <==> marks.contains(size.lin(cx, cy) as usize)) by {
        if cx == x && cy == y {
            if marks.contains(size.lin(x, y) as usize) {
                let j = choose|j: int|
                    0 <= j < marks.len() && marks[j] == size.lin(x, y) as usize;
                assert(marks[j] < size.lin(x, y));
            }
        } else {
            assert(scanned(x, y, cx, cy));
        }
    }
}

proof fn lemma_marks_row_end(
    rows: Seq<Seq<u8>>,
    size: MapSize,
    marks: Seq<usize>,
    sym_ok: spec_fn(u8) -> bool,
    y: int,
)
    requires
        size.wf(),
        rows.len() == size.height,
        0 <= y < rows.len(),
        rows[y].len() <= size.width,
        marks_ok(rows, size, marks, sym_ok, rows[y].len() as int, y),
        !sym_ok(SPACE_FLOOR_SYMBOL),
    ensures
        marks_ok(rows, size, marks, sym_ok, 0, y + 1),
{
    let x0 = rows[y].len() as int;
    lemma_lin_row_major(size, x0, y, 0, y + 1);
    assert forall|k: int| 0 <= k < marks.len() implies (#[trigger] marks[k]) < size.lin(
        0,
        y + 1,
    ) by {
        assert(marks[k] < size.lin(x0, y));
    }
    assert forall|cx: int, cy: int|
        size.in_bounds(cx, cy) && scanned(0, y + 1, cx, cy) implies (sym_ok(
        #[trigger] symbol_at(rows, cx, cy),
    ) <==> marks.contains(size.lin(cx, cy) as usize)) by {
        let s = symbol_at(rows, cx, cy);
        lemma_lin_in_range(size, cx, cy);
        if cy == y && cx >= x0 {
            assert(s == SPACE_FLOOR_SYMBOL);
            lemma_lin_row_major(size, x0, y, cx, cy);
            if marks.contains(size.lin(cx, cy) as usize) {
                let j = choose|j: int|
                    0 <= j < marks.len() && marks[j] == size.lin(cx, cy) as usize;
                assert(marks[j] < size.lin(x0, y));
                assert(false);
            }
        } else {
            assert(scanned(x0, y, cx, cy));
        }
    }
}

/// Mid-scan state of the occupancy grid: visited cells hold what their
/// symbol places there, the rest still vacant.
spec fn grid_scan_ok(
    rows: Seq<Seq<u8>>,
    size: MapSize,
    cells: Seq<Option<Occupant>>,
    x: int,
    y: int,
) -> bool {
    &&& cells.len() == size.cell_count()
    &&& forall|cx: int, cy: int|
        size.in_bounds(cx, cy) && scanned(x, y, cx, cy) ==> cells[size.lin(cx, cy)]
            == cell_for_symbol(#[trigger] symbol_at(rows, cx, cy), size.lin(cx, cy) as u64)
    &&& forall|cx: int, cy: int|
        #![trigger size.lin(cx, cy)]
        size.in_bounds(cx, cy) && !scanned(x, y, cx, cy) ==> cells[size.lin(cx, cy)] is None
}

proof fn lemma_grid_step(
    rows: Seq<Seq<u8>>,
    size: MapSize,
    cells: Seq<Option<Occupant>>,
    x: int,
    y: int,
)
    requires
        size.wf(),
        size.in_bounds(x, y),
        grid_scan_ok(rows, size, cells, x, y),
    ensures
        grid_scan_ok(
            rows,
            size,
            cells.update(
                size.lin(x, y),
                cell_for_symbol(symbol_at(rows, x, y), size.lin(x, y) as u64),
            ),
            x + 1,
            y,
        ),
{
    lemma_lin_in_range(size, x, y);
    let c2 = cells.update(size.lin(x, y), cell_for_symbol(symbol_at(rows, x, y), size.lin(x, y) as u64));
    assert forall|cx: int, cy: int|
        size.in_bounds(cx, cy) && scanned(x + 1, y, cx, cy) implies c2[size.lin(cx, cy)]
            == cell_for_symbol(#[trigger] symbol_at(rows, cx, cy), size.lin(cx, cy) as u64) by {
        lemma_lin_in_range(size, cx, cy);
        if !(cx == x && cy == y) {
            assert(scanned(x, y, cx, cy));
            if size.lin(cx, cy) == size.lin(x, y) {
                lemma_lin_injective(size, cx, cy, x, y);
            }
        }
    }
    assert forall|cx: int, cy: int|
        #![trigger size.lin(cx, cy)]
        size.in_bounds(cx, cy) && !scanned(x + 1, y, cx, cy) implies c2[size.lin(cx, cy)]
            is None by {
        lemma_lin_in_range(size, cx, cy);
        assert(!scanned(x, y, cx, cy));
        if size.lin(cx, cy) == size.lin(x, y) {
            lemma_lin_injective(size, cx, cy, x, y);
        }
        assert(cells[size.lin(cx, cy)] is None);
    }
}

proof fn lemma_grid_row_end(
    rows: Seq<Seq<u8>>,
    size: MapSize,
    cells: Seq<Option<Occupant>>,
    y: int,
)
    requires
        size.wf(),
        rows.len() == size.height,
        0 <= y < rows.len(),
        rows[y].len() <= size.width,
        grid_scan_ok(rows, size, cells, rows[y].len() as int, y),
    ensures
        grid_scan_ok(rows, size, cells, 0, y + 1),
{
    let x0 = rows[y].len() as int;
    assert forall|cx: int, cy: int|
        size.in_bounds(cx, cy) && scanned(0, y + 1, cx, cy) implies cells[size.lin(cx, cy)]
            == cell_for_symbol(#[trigger] symbol_at(rows, cx, cy), size.lin(cx, cy) as u64) by {
        let s = symbol_at(rows, cx, cy);
        lemma_lin_in_range(size, cx, cy);
        if cy == y && cx >= x0 {
            assert(s == SPACE_FLOOR_SYMBOL);
            assert(!scanned(x0, y, cx, cy));
        } else {
            assert(scanned(x0, y, cx, cy));
        }
    }
    assert forall|cx: int, cy: int|
        #![trigger size.lin(cx, cy)]
        size.in_bounds(cx, cy) && !scanned(0, y + 1, cx, cy) implies cells[size.lin(cx, cy)]
            is None by {
        assert(!scanned(x0, y, cx, cy));
        assert(cells[size.lin(cx, cy)] is None);
    }
}

/// A definition from which no playable level can be built; fatal at load
/// time, no session is started.
#[derive(Clone, Copy, PartialEq, Eq, Structural, Debug)]
pub enum LevelDefinitionError {
    /// The definition has no rows at all.
    NoRows,
    /// The grid would be too large for its linear index arithmetic.
    TooLarge,
    /// No player symbol anywhere; exactly one is expected.
    NoPlayer,
    /// More than one player symbol.
    MultiplePlayers,
    /// No door anywhere: a puzzle with no door cannot be won.
    NoDoor,
    /// More than one door.
    MultipleDoors,
}

/// The loader's output: the populated occupancy grid, the initial player
/// coordinate, the trigger set in first-seen order, the door's linear
/// index, and the cells whose symbol was not recognized.
pub struct LevelData {
    pub grid: TileStorage,
    pub player: TilePos,
    pub triggers: Vec<usize>,
    pub door_index: usize,
    pub warnings: Vec<usize>,
}

impl LevelData {
    /// What a fresh session relies on: a well-formed grid in which the
    /// player stands exactly once, the door stands exactly once at its
    /// recorded index, every trigger index is a real cell, and no trigger
    /// marker occupies a cell.
    pub open spec fn wf(self) -> bool {
        &&& self.grid.wf()
        &&& self.player.wf(self.grid.size)
        &&& self.grid.tiles@[self.player.index as int] == Some(
            Occupant { id: self.player.index as u64, kind: EntityKind::Player },
        )
        &&& forall|i: int|
            0 <= i < self.grid.tiles@.len() && (#[trigger] self.grid.tiles@[i]) is Some
                && self.grid.tiles@[i]->0.kind is Player ==> i == self.player.index
        &&& forall|k: int|
            0 <= k < self.triggers@.len() ==> (#[trigger] self.triggers@[k])
                < self.grid.tiles@.len()
        &&& self.door_index < self.grid.tiles@.len()
        &&& self.grid.tiles@[self.door_index as int] is Some && self.grid.tiles@[
            self.door_index as int]->0.kind is Door
        &&& forall|i: int|
            0 <= i < self.grid.tiles@.len() && (#[trigger] self.grid.tiles@[i]) is Some
                && self.grid.tiles@[i]->0.kind is Door ==> i == self.door_index
        &&& forall|i: int|
            0 <= i < self.grid.tiles@.len() && (#[trigger] self.grid.tiles@[i]) is Some ==> !(
            self.grid.tiles@[i]->0.kind is TriggerMarker)
    }
}

/// The grid fits the index arithmetic: its cell count stays within the
/// range a linear index must fit.
pub open spec fn level_fits(rows: Seq<Seq<u8>>) -> bool {
    max_row_len(rows) * rows.len() <= i32::MAX
}

/// How many cells of the definition place an occupant in the grid: a
/// wall, a box, the door or the player.
pub open spec fn entity_cells(rows: Seq<Seq<u8>>) -> nat {
    count_symbol(rows, WALL_SYMBOL) + count_symbol(rows, BOX_SYMBOL) + count_symbol(
        rows,
        DOOR_SYMBOL,
    ) + count_symbol(rows, PLAYER_SYMBOL)
}

/// How loaded level data reflects its definition: the grid is as wide as
/// the longest row and as tall as the row count; every cell holds exactly
/// what its symbol places there; the player and the door stand where their
/// symbols are; and the trigger set and the diagnostics list the cells of
/// their symbols in first-seen order, which is ascending linear order.
pub open spec fn level_matches(rows: Seq<Seq<u8>>, l: LevelData) -> bool {
    &&& l.grid.size.width == max_row_len(rows)
    &&& l.grid.size.height == rows.len()
    &&& forall|x: int, y: int|
        l.grid.size.in_bounds(x, y) ==> l.grid.tiles@[l.grid.size.lin(x, y)] == cell_for_symbol(
            #[trigger] symbol_at(rows, x, y),
            l.grid.size.lin(x, y) as u64,
        )
    &&& symbol_at(rows, l.player.x as int, l.player.y as int) == PLAYER_SYMBOL
    &&& exists|x: int, y: int|
        l.grid.size.in_bounds(x, y) && #[trigger] symbol_at(rows, x, y) == DOOR_SYMBOL
            && l.grid.size.lin(x, y) == l.door_index
    &&& forall|k1: int, k2: int|
        0 <= k1 < k2 < l.triggers@.len() ==> l.triggers@[k1] < l.triggers@[k2]
    &&& forall|x: int, y: int|
        l.grid.size.in_bounds(x, y) ==> ((#[trigger] symbol_at(rows, x, y)) == TRIGGER_SYMBOL
            <==> l.triggers@.contains(l.grid.size.lin(x, y) as usize))
    &&& forall|k1: int, k2: int|
        0 <= k1 < k2 < l.warnings@.len() ==> l.warnings@[k1] < l.warnings@[k2]
    &&& forall|x: int, y: int|
        l.grid.size.in_bounds(x, y) ==> (!is_recognized(#[trigger] symbol_at(rows, x, y))
            <==> l.warnings@.contains(l.grid.size.lin(x, y) as usize))
}


/// Mid-scan record of the most recently seen cell of one symbol: in step
/// with the collected index list.
spec fn found_ok(
    rows: Seq<Seq<u8>>,
    size: MapSize,
    marks: Seq<usize>,
    found: Option<TilePos>,
    c: u8,
) -> bool {
    match found {
        Some(tp) => marks.len() > 0 && tp.wf(size) && tp.index == marks[marks.len() - 1]
            && symbol_at(rows, tp.x as int, tp.y as int) == c,
        None => marks.len() == 0,
    }
}


/// At the end of the scan, with exactly one player cell and one door cell
/// collected, the grid holds the player and the door exactly once, at the
/// recorded coordinates, and never a trigger marker.
proof fn lemma_parse_done(
    g: Seq<Seq<u8>>,
    size: MapSize,
    cells: Seq<Option<Occupant>>,
    players: Seq<usize>,
    doors: Seq<usize>,
    p_ok: spec_fn(u8) -> bool,
    d_ok: spec_fn(u8) -> bool,
    ptile: TilePos,
    dtile: TilePos,
)
    requires
        size.wf(),
        cells.len() == size.cell_count(),
        grid_scan_ok(g, size, cells, 0, size.height as int),
        marks_ok(g, size, players, p_ok, 0, size.height as int),
        marks_ok(g, size, doors, d_ok, 0, size.height as int),
        forall|c: u8| #[trigger] p_ok(c) <==> c == PLAYER_SYMBOL,
        forall|c: u8| #[trigger] d_ok(c) <==> c == DOOR_SYMBOL,
        players.len() == 1,
        doors.len() == 1,
        ptile.wf(size),
        ptile.index == players[0],
        symbol_at(g, ptile.x as int, ptile.y as int) == PLAYER_SYMBOL,
        dtile.wf(size),
        dtile.index == doors[0],
        symbol_at(g, dtile.x as int, dtile.y as int) == DOOR_SYMBOL,
    ensures
        cells[ptile.index as int] == Some(
            Occupant { id: ptile.index as u64, kind: EntityKind::Player },
        ),
        cells[dtile.index as int] is Some && cells[dtile.index as int]->0.kind is Door,
        forall|i: int|
            0 <= i < cells.len() && (#[trigger] cells[i]) is Some && cells[i]->0.kind
                is Player ==> i == ptile.index,
        forall|i: int|
            0 <= i < cells.len() && (#[trigger] cells[i]) is Some && cells[i]->0.kind is Door
                ==> i == dtile.index,
        forall|i: int|
            0 <= i < cells.len() && (#[trigger] cells[i]) is Some ==> !(cells[i]->0.kind
                is TriggerMarker),
{
    lemma_lin_in_range(size, ptile.x as int, ptile.y as int);
    lemma_lin_in_range(size, dtile.x as int, dtile.y as int);
    assert(cells[ptile.index as int] == cell_for_symbol(
        symbol_at(g, ptile.x as int, ptile.y as int),
        ptile.index as u64,
    ));
    assert(cells[dtile.index as int] == cell_for_symbol(
        symbol_at(g, dtile.x as int, dtile.y as int),
        dtile.index as u64,
    ));
    assert forall|i: int|
        0 <= i < cells.len() && (#[trigger] cells[i]) is Some && cells[i]->0.kind
            is Player implies i == ptile.index by {
        lemma_lin_decompose(size, i);
        let xi = i % (size.width as int);
        let yi = i / (size.width as int);
        let s = symbol_at(g, xi, yi);
        assert(s == PLAYER_SYMBOL);
        assert(players.contains(size.lin(xi, yi) as usize));
        let j = choose|j: int| 0 <= j < players.len() && players[j] == i as usize;
        assert(j == 0);
    }
    assert forall|i: int|
        0 <= i < cells.len() && (#[trigger] cells[i]) is Some && cells[i]->0.kind
            is Door implies i == dtile.index by {
        lemma_lin_decompose(size, i);
        let xi = i % (size.width as int);
        let yi = i / (size.width as int);
        let s = symbol_at(g, xi, yi);
        assert(s == DOOR_SYMBOL);
        assert(doors.contains(size.lin(xi, yi) as usize));
        let j = choose|j: int| 0 <= j < doors.len() && doors[j] == i as usize;
        assert(j == 0);
    }
    assert forall|i: int|
        0 <= i < cells.len() && (#[trigger] cells[i]) is Some implies !(cells[i]->0.kind
            is TriggerMarker) by {
        lemma_lin_decompose(size, i);
        let xi = i % (size.width as int);
        let yi = i / (size.width as int);
        let s = symbol_at(g, xi, yi);
    }
}

/// Parse the rows of a level definition into level data. Exactly one
/// player symbol and exactly one door are expected; a definition with no
/// rows, a grid too large to index, or the wrong number of players or
/// doors is refused, each refusal tied to its exact condition below.
#[verifier::rlimit(60)]
pub fn parse_rows(rows: &Vec<Vec<u8>>) -> (r: Result<LevelData, LevelDefinitionError>)
    ensures
        (r matches Err(e) && e is NoRows) <==> rows.deep_view().len() == 0,
        (r matches Err(e) && e is TooLarge) <==> rows.deep_view().len() > 0 && !level_fits(
            rows.deep_view(),
        ),
        (r matches Err(e) && e is NoPlayer) <==> rows.deep_view().len() > 0 && level_fits(
            rows.deep_view(),
        ) && count_symbol(rows.deep_view(), PLAYER_SYMBOL) == 0,
        (r matches Err(e) && e is MultiplePlayers) <==> rows.deep_view().len() > 0 && level_fits(
            rows.deep_view(),
        ) && count_symbol(rows.deep_view(), PLAYER_SYMBOL) >= 2,
        (r matches Err(e) && e is NoDoor) <==> rows.deep_view().len() > 0 && level_fits(
            rows.deep_view(),
        ) && count_symbol(rows.deep_view(), PLAYER_SYMBOL) == 1 && count_symbol(
            rows.deep_view(),
            DOOR_SYMBOL,
        ) == 0,
        (r matches Err(e) && e is MultipleDoors) <==> rows.deep_view().len() > 0 && level_fits(
            rows.deep_view(),
        ) && count_symbol(rows.deep_view(), PLAYER_SYMBOL) == 1 && count_symbol(
            rows.deep_view(),
            DOOR_SYMBOL,
        ) >= 2,
        r is Ok <==> rows.deep_view().len() > 0 && level_fits(rows.deep_view()) && count_symbol(
            rows.deep_view(),
            PLAYER_SYMBOL,
        ) == 1 && count_symbol(rows.deep_view(), DOOR_SYMBOL) == 1,
        r matches Ok(l) ==> level_matches(rows.deep_view(), l) && l.wf(),
        // the occupancy invariant holds from the start: one occupant for
        // each placed entity symbol, every cell holding at most one
        r matches Ok(l) ==> occupied_count(l.grid.tiles@) == entity_cells(rows.deep_view()),
{
    let ghost g = rows.deep_view();
    let h = rows.len();
    if h == 0 {
        return Err(LevelDefinitionError::NoRows);
    }
    let mut w: usize = 0;
    let mut y: usize = 0;
    proof {
        assert(g.take(0) =~= Seq::<Seq<u8>>::empty());
    }
    while y < h
        invariant
            g == rows.deep_view(),
            h == rows@.len(),
            g.len() == rows@.len(),
            y <= h,
            w == max_row_len(g.take(y as int)),
        decreases h - y,
    {
        proof {
            assert(g[y as int] =~~= rows@[y as int]@);
            assert(g.take(y + 1).drop_last() =~= g.take(y as int));
            assert(g.take(y + 1).last() == g[y as int]);
        }
        let rowlen = rows[y].len();
        if rowlen > w {
            w = rowlen;
        }
        y = y + 1;
    }
    proof {
        assert(g.take(h as int) =~= g);
    }
    if w == 0 {
        proof {
            lemma_count_empty_rows(g, PLAYER_SYMBOL);
        }
        return Err(LevelDefinitionError::NoPlayer);
    }
    if w > (i32::MAX as usize) {
        proof {
            assert(max_row_len(g) * g.len() > i32::MAX) by (nonlinear_arith)
                requires
                    max_row_len(g) > i32::MAX,
                    g.len() >= 1;
        }
        return Err(LevelDefinitionError::TooLarge);
    }
    if h > (i32::MAX as usize) {
        proof {
            assert(max_row_len(g) * g.len() > i32::MAX) by (nonlinear_arith)
                requires
                    max_row_len(g) >= 1,
                    g.len() > i32::MAX;
        }
        return Err(LevelDefinitionError::TooLarge);
    }
    proof {
        assert((w as u64) * (h as u64) <= u64::MAX && (w as u64) * (h as u64) == max_row_len(g)
            * g.len()) by (nonlinear_arith)
            requires
                1 <= w as u64 <= i32::MAX,
                1 <= h as u64 <= i32::MAX,
                w as int == max_row_len(g),
                h as int == g.len();
    }
    if (w as u64) * (h as u64) > (i32::MAX as u64) {
        return Err(LevelDefinitionError::TooLarge);
    }
    let wi = w as i32;
    let hi = h as i32;
    let size = MapSize { width: wi, height: hi };
    let mut grid = TileStorage::new(size);
    let mut players: Vec<usize> = Vec::new();
    let mut doors: Vec<usize> = Vec::new();
    let mut triggers: Vec<usize> = Vec::new();
    let mut warnings: Vec<usize> = Vec::new();
    let mut player_found: Option<TilePos> = None;
    let mut door_found: Option<TilePos> = None;
    let ghost p_ok: spec_fn(u8) -> bool = |c: u8| c == PLAYER_SYMBOL;
    let ghost d_ok: spec_fn(u8) -> bool = |c: u8| c == DOOR_SYMBOL;
    let ghost t_ok: spec_fn(u8) -> bool = |c: u8| c == TRIGGER_SYMBOL;
    let ghost u_ok: spec_fn(u8) -> bool = |c: u8| !is_recognized(c);
    let mut y: usize = 0;
    proof {
        assert(g.take(0) =~= Seq::<Seq<u8>>::empty());
        assert forall|cx: int, cy: int|
            #![trigger size.lin(cx, cy)]
            size.in_bounds(cx, cy) && !scanned(0, 0, cx, cy) implies grid.tiles@[size.lin(
            cx,
            cy,
        )] is None by {
            lemma_lin_in_range(size, cx, cy);
        }
        lemma_occupied_count_none(grid.tiles@);
    }
    while y < h
        invariant
            g == rows.deep_view(),
            h == rows@.len(),
            g.len() == rows@.len(),
            y <= h,
            size == (MapSize { width: wi, height: hi }),
            size.wf(),
            size.width == w,
            size.height == h,
            w == max_row_len(g),
            grid.size == size,
            grid.wf(),
            forall|c: u8| #[trigger] p_ok(c) <==> c == PLAYER_SYMBOL,
            forall|c: u8| #[trigger] d_ok(c) <==> c == DOOR_SYMBOL,
            forall|c: u8| #[trigger] t_ok(c) <==> c == TRIGGER_SYMBOL,
            forall|c: u8| #[trigger] u_ok(c) <==> !is_recognized(c),
            grid_scan_ok(g, size, grid.tiles@, 0, y as int),
            marks_ok(g, size, players@, p_ok, 0, y as int),
            marks_ok(g, size, doors@, d_ok, 0, y as int),
            marks_ok(g, size, triggers@, t_ok, 0, y as int),
            marks_ok(g, size, warnings@, u_ok, 0, y as int),
            players@.len() == count_symbol(g.take(y as int), PLAYER_SYMBOL),
            doors@.len() == count_symbol(g.take(y as int), DOOR_SYMBOL),
            occupied_count(grid.tiles@) == entity_cells(g.take(y as int)),
            found_ok(g, size, players@, player_found, PLAYER_SYMBOL),
            found_ok(g, size, doors@, door_found, DOOR_SYMBOL),
        decreases h - y,
    {
        proof {
            assert(g[y as int] =~~= rows@[y as int]@);
            lemma_max_row_len_ge(g, y as int);
            assert(g[y as int].take(0) =~= Seq::<u8>::empty());
        }
        let rowlen = rows[y].len();
        let mut x: usize = 0;
        while x < rowlen
            invariant
                g == rows.deep_view(),
                h == rows@.len(),
                g.len() == rows@.len(),
                y < h,
                x <= rowlen,
                rowlen == g[y as int].len(),
                rowlen == rows@[y as int]@.len(),
                rowlen <= w,
                size == (MapSize { width: wi, height: hi }),
                size.wf(),
                size.width == w,
                size.height == h,
                w == max_row_len(g),
                grid.size == size,
                grid.wf(),
                forall|c: u8| #[trigger] p_ok(c) <==> c == PLAYER_SYMBOL,
                forall|c: u8| #[trigger] d_ok(c) <==> c == DOOR_SYMBOL,
                forall|c: u8| #[trigger] t_ok(c) <==> c == TRIGGER_SYMBOL,
                forall|c: u8| #[trigger] u_ok(c) <==> !is_recognized(c),
                grid_scan_ok(g, size, grid.tiles@, x as int, y as int),
                marks_ok(g, size, players@, p_ok, x as int, y as int),
                marks_ok(g, size, doors@, d_ok, x as int, y as int),
                marks_ok(g, size, triggers@, t_ok, x as int, y as int),
                marks_ok(g, size, warnings@, u_ok, x as int, y as int),
                players@.len() == count_symbol(g.take(y as int), PLAYER_SYMBOL) + count_in_row(
                    g[y as int].take(x as int),
                    PLAYER_SYMBOL,
                ),
                doors@.len() == count_symbol(g.take(y as int), DOOR_SYMBOL) + count_in_row(
                    g[y as int].take(x as int),
                    DOOR_SYMBOL,
                ),
                occupied_count(grid.tiles@) == entity_cells(g.take(y as int)) + count_in_row(
                    g[y as int].take(x as int),
                    WALL_SYMBOL,
                ) + count_in_row(g[y as int].take(x as int), BOX_SYMBOL) + count_in_row(
                    g[y as int].take(x as int),
                    DOOR_SYMBOL,
                ) + count_in_row(g[y as int].take(x as int), PLAYER_SYMBOL),
                found_ok(g, size, players@, player_found, PLAYER_SYMBOL),
                found_ok(g, size, doors@, door_found, DOOR_SYMBOL),
            decreases rowlen - x,
        {
            let c = rows[y][x];
            proof {
                assert(g[y as int] =~~= rows@[y as int]@);
                assert(c == g[y as int][x as int]);
                assert(symbol_at(g, x as int, y as int) == c);
                lemma_lin_in_range(size, x as int, y as int);
            }
            let pos = TilePos::new(x as i32, y as i32, wi);
            let cell: Option<Occupant> = if c == WALL_SYMBOL {
                Some(Occupant { id: pos.index as u64, kind: EntityKind::Wall })
            } else if c == BOX_SYMBOL {
                Some(Occupant { id: pos.index as u64, kind: EntityKind::Box })
            } else if c == DOOR_SYMBOL {
                Some(Occupant { id: pos.index as u64, kind: EntityKind::Door })
            } else if c == PLAYER_SYMBOL {
                Some(Occupant { id: pos.index as u64, kind: EntityKind::Player })
            } else {
                None
            };
            let ghost prev_cells = grid.tiles@;
            let ghost pp = players@;
            let ghost dd = doors@;
            let ghost tt = triggers@;
            let ghost uu = warnings@;
            proof {
                assert(cell == cell_for_symbol(c, size.lin(x as int, y as int) as u64));
            }
            grid.tiles.set(pos.index, cell);
            if c == PLAYER_SYMBOL {
                players.push(pos.index);
                player_found = Some(pos);
            } else if c == DOOR_SYMBOL {
                doors.push(pos.index);
                door_found = Some(pos);
            } else if c == TRIGGER_SYMBOL {
                triggers.push(pos.index);
            } else if !(c == WALL_SYMBOL || c == BOX_SYMBOL || c == DOT_FLOOR_SYMBOL || c
                == SPACE_FLOOR_SYMBOL) {
                warnings.push(pos.index);
            }
            proof {
                let xi = x as int;
                let yi = y as int;
                lemma_grid_step(g, size, prev_cells, xi, yi);
                assert(grid.tiles@ =~= prev_cells.update(
                    size.lin(xi, yi),
                    cell_for_symbol(symbol_at(g, xi, yi), size.lin(xi, yi) as u64),
                ));
                if c == PLAYER_SYMBOL {
                    lemma_marks_push(g, size, pp, p_ok, xi, yi);
                    assert(players@ =~= pp.push(size.lin(xi, yi) as usize));
                } else {
                    lemma_marks_keep(g, size, pp, p_ok, xi, yi);
                }
                if c == DOOR_SYMBOL {
                    lemma_marks_push(g, size, dd, d_ok, xi, yi);
                    assert(doors@ =~= dd.push(size.lin(xi, yi) as usize));
                } else {
                    lemma_marks_keep(g, size, dd, d_ok, xi, yi);
                }
                if c == TRIGGER_SYMBOL {
                    lemma_marks_push(g, size, tt, t_ok, xi, yi);
                    assert(triggers@ =~= tt.push(size.lin(xi, yi) as usize));
                } else {
                    lemma_marks_keep(g, size, tt, t_ok, xi, yi);
                }
                if !is_recognized(c) {
                    lemma_marks_push(g, size, uu, u_ok, xi, yi);
                    assert(warnings@ =~= uu.push(size.lin(xi, yi) as usize));
                } else {
                    lemma_marks_keep(g, size, uu, u_ok, xi, yi);
                }
                lemma_count_in_row_step(g[yi], PLAYER_SYMBOL, xi);
                lemma_count_in_row_step(g[yi], DOOR_SYMBOL, xi);
                lemma_count_in_row_step(g[yi], WALL_SYMBOL, xi);
                lemma_count_in_row_step(g[yi], BOX_SYMBOL, xi);
                assert(prev_cells[size.lin(xi, yi)] is None);
                lemma_occupied_count_update(prev_cells, size.lin(xi, yi), cell);
            }
            x = x + 1;
        }
        proof {
            let yi = y as int;
            lemma_marks_row_end(g, size, players@, p_ok, yi);
            lemma_marks_row_end(g, size, doors@, d_ok, yi);
            lemma_marks_row_end(g, size, triggers@, t_ok, yi);
            lemma_marks_row_end(g, size, warnings@, u_ok, yi);
            lemma_grid_row_end(g, size, grid.tiles@, yi);
            assert(g[yi].take(rowlen as int) =~= g[yi]);
            lemma_count_rows_step(g, PLAYER_SYMBOL, yi);
            lemma_count_rows_step(g, DOOR_SYMBOL, yi);
            lemma_count_rows_step(g, WALL_SYMBOL, yi);
            lemma_count_rows_step(g, BOX_SYMBOL, yi);
        }
        y = y + 1;
    }
    proof {
        assert(g.take(h as int) =~= g);
    }
    if players.len() == 0 {
        return Err(LevelDefinitionError::NoPlayer);
    }
    if players.len() > 1 {
        return Err(LevelDefinitionError::MultiplePlayers);
    }
    if doors.len() == 0 {
        return Err(LevelDefinitionError::NoDoor);
    }
    if doors.len() > 1 {
        return Err(LevelDefinitionError::MultipleDoors);
    }
    let ptile = if let Some(tp) = player_found {
        tp
    } else {
        proof {
            assert(false);
        }
        TilePos { x: 0, y: 0, index: 0 }
    };
    let dtile = if let Some(tp) = door_found {
        tp
    } else {
        proof {
            assert(false);
        }
        TilePos { x: 0, y: 0, index: 0 }
    };
    proof {
        lemma_lin_in_range(size, dtile.x as int, dtile.y as int);
        lemma_lin_in_range(size, ptile.x as int, ptile.y as int);
    }
    let data = LevelData { grid, player: ptile, triggers, door_index: dtile.index, warnings };
    proof {
        lemma_parse_done(
            g,
            size,
            data.grid.tiles@,
            players@,
            doors@,
            p_ok,
            d_ok,
            ptile,
            dtile,
        );
        assert(data.wf());
        assert(level_matches(g, data));
    }
    Ok(data)
}

/// Load a level definition: split the text into rows and parse them. The
/// refusals and the shape of the data are exactly those of `parse_rows`,
/// over the rows of `text`.
pub fn load_level(text: &Vec<u8>) -> (r: Result<LevelData, LevelDefinitionError>)
    ensures
        (r matches Err(e) && e is NoRows) <==> split_rows(text@).len() == 0,
        (r matches Err(e) && e is TooLarge) <==> split_rows(text@).len() > 0 && !level_fits(
            split_rows(text@),
        ),
        (r matches Err(e) && e is NoPlayer) <==> split_rows(text@).len() > 0 && level_fits(
            split_rows(text@),
        ) && count_symbol(split_rows(text@), PLAYER_SYMBOL) == 0,
        (r matches Err(e) && e is MultiplePlayers) <==> split_rows(text@).len() > 0 && level_fits(
            split_rows(text@),
        ) && count_symbol(split_rows(text@), PLAYER_SYMBOL) >= 2,
        (r matches Err(e) && e is NoDoor) <==> split_rows(text@).len() > 0 && level_fits(
            split_rows(text@),
        ) && count_symbol(split_rows(text@), PLAYER_SYMBOL) == 1 && count_symbol(
            split_rows(text@),
            DOOR_SYMBOL,
        ) == 0,
        (r matches Err(e) && e is MultipleDoors) <==> split_rows(text@).len() > 0 && level_fits(
            split_rows(text@),
        ) && count_symbol(split_rows(text@), PLAYER_SYMBOL) == 1 && count_symbol(
            split_rows(text@),
            DOOR_SYMBOL,
        ) >= 2,
        r is Ok <==> split_rows(text@).len() > 0 && level_fits(split_rows(text@)) && count_symbol(
            split_rows(text@),
            PLAYER_SYMBOL,
        ) == 1 && count_symbol(split_rows(text@), DOOR_SYMBOL) == 1,
        r matches Ok(l) ==> level_matches(split_rows(text@), l) && l.wf(),
        r matches Ok(l) ==> occupied_count(l.grid.tiles@) == entity_cells(split_rows(text@)),
{
    let rows = split_lines(text);
    parse_rows(&rows)
}

impl LevelData {
    /// Construct the session for this level: the door starts closed at its
    /// recorded index, the player faces right, the occupant identifier of
    /// the player is its starting cell, and the move cooldown starts at
    /// zero, paused until the entry reveal has finished.
    pub fn into_session(self, level_index: usize, cooldown_ms: u32) -> (s: LevelSession)
        requires
            self.wf(),
            0 < cooldown_ms,
        ensures
            s.wf(),
            s.grid == self.grid,
            s.player == self.player,
            s.player_id == self.player.index as u64,
            s.triggers == self.triggers,
            s.door == (DoorState { index: self.door_index, is_open: false }),
            s.level_index == level_index,
            s.cooldown == (MoveCooldown { elapsed_ms: 0, duration_ms: cooldown_ms, paused: true }),
            !s.facing_left,
    {
        let player_id = self.player.index as u64;
        LevelSession {
            grid: self.grid,
            triggers: self.triggers,
            door: DoorState { index: self.door_index, is_open: false },
            player: self.player,
            player_id,
            level_index,
            cooldown: MoveCooldown::new(cooldown_ms, true),
            facing_left: false,
        }
    }
}

} // verus!
