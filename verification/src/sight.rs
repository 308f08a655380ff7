use vstd::prelude::*;

use crate::board::{
    cell_blocks_line_of_effect, cell_obstructs, last_cell_at, last_cell_index, GridPosition,
    MAXIMUM_BOARD_EXTENT, RpgBoardSetup, RpgCellSetup, RpgLineOfEffectProjection, RpgLineOfEffectReason,
};
use crate::text::texts;

verus! {

/// `v` clamped to `u64::MAX`, the saturating product the walk compares.
pub open spec fn sat_u64(v: int) -> int {
    if v > u64::MAX {
        u64::MAX as int
    } else {
        v
    }
}

pub open spec fn sign(v: int) -> int {
    if v > 0 {
        1
    } else if v < 0 {
        -1
    } else {
        0
    }
}

pub open spec fn abs(v: int) -> int {
    if v < 0 {
        -v
    } else {
        v
    }
}

/// Appends a coordinate unless it is negative, too large for a grid position,
/// or already present.
pub open spec fn push_position(acc: Seq<GridPosition>, x: int, y: int) -> Seq<GridPosition> {
    if 0 <= x <= u32::MAX && 0 <= y <= u32::MAX {
        let p = GridPosition { x: x as u32, y: y as u32 };
        if acc.contains(p) {
            acc
        } else {
            acc.push(p)
        }
    } else {
        acc
    }
}

pub open spec fn walk_measure(dx: int, dy: int, tx: int, ty: int) -> int {
    (if tx < dx {
        dx - tx
    } else {
        0
    }) + (if ty < dy {
        dy - ty
    } else {
        0
    })
}

pub proof fn lemma_crossing_dominates(t: int, u: int, d: int, e: int)
    requires
        t >= d >= 0,
        0 <= u < e,
    ensures
        sat_u64((2 * t + 1) * e) >= sat_u64((2 * u + 1) * d),
{
    assert((2 * t + 1) * e >= (2 * u + 1) * d) by (nonlinear_arith)
        requires
            t >= d >= 0,
            0 <= u < e,
    ;
}

pub proof fn lemma_walk_step(dx: int, dy: int, tx: int, ty: int)
    requires
        dx >= 0,
        dy >= 0,
        tx >= 0,
        ty >= 0,
        tx < dx || ty < dy,
    ensures
        sat_u64((2 * tx + 1) * dy) < sat_u64((2 * ty + 1) * dx) ==> tx < dx,
        sat_u64((2 * tx + 1) * dy) > sat_u64((2 * ty + 1) * dx) ==> ty < dy,
        sat_u64((2 * tx + 1) * dy) < sat_u64((2 * ty + 1) * dx) ==> walk_measure(dx, dy, tx + 1, ty)
            < walk_measure(dx, dy, tx, ty),
        sat_u64((2 * tx + 1) * dy) > sat_u64((2 * ty + 1) * dx) ==> walk_measure(dx, dy, tx, ty + 1)
            < walk_measure(dx, dy, tx, ty),
        walk_measure(dx, dy, tx + 1, ty + 1) < walk_measure(dx, dy, tx, ty),
{
    if tx >= dx {
        lemma_crossing_dominates(tx, ty, dx, dy);
    }
    if ty >= dy {
        lemma_crossing_dominates(ty, tx, dy, dx);
    }
}

/// One square-grid supercover walk: from the current cell, cross into the
/// next column or row whose boundary the centre-to-centre segment meets
/// first; where it meets a corner exactly, both side cells are recorded
/// (ordered by row, then column) before stepping diagonally.
pub open spec fn supercover_walk(
    cx: int,
    cy: int,
    sx: int,
    sy: int,
    dx: int,
    dy: int,
    tx: int,
    ty: int,
    acc: Seq<GridPosition>,
) -> Seq<GridPosition>
    decreases walk_measure(dx, dy, tx, ty),
{
    if dx >= 0 && dy >= 0 && tx >= 0 && ty >= 0 && (tx < dx || ty < dy) {
        let xc = sat_u64((2 * tx + 1) * dy);
        let yc = sat_u64((2 * ty + 1) * dx);
        proof {
            lemma_walk_step(dx, dy, tx, ty);
        }
        if xc == yc {
            let ax = cx + sx;
            let ay = cy;
            let bx = cx;
            let by = cy + sy;
            let corners = if ay < by || (ay == by && ax <= bx) {
                push_position(push_position(acc, ax, ay), bx, by)
            } else {
                push_position(push_position(acc, bx, by), ax, ay)
            };
            supercover_walk(
                cx + sx,
                cy + sy,
                sx,
                sy,
                dx,
                dy,
                tx + 1,
                ty + 1,
                push_position(corners, cx + sx, cy + sy),
            )
        } else if xc < yc {
            supercover_walk(cx + sx, cy, sx, sy, dx, dy, tx + 1, ty, push_position(acc, cx + sx, cy))
        } else {
            supercover_walk(cx, cy + sy, sx, sy, dx, dy, tx, ty + 1, push_position(acc, cx, cy + sy))
        }
    } else {
        acc
    }
}

/// The cells a line of effect from `start` to `end` passes through, in walk
/// order, excluding `start` itself.
pub open spec fn supercover(start: GridPosition, end: GridPosition) -> Seq<GridPosition> {
    supercover_walk(
        start.x as int,
        start.y as int,
        sign(end.x - start.x),
        sign(end.y - start.y),
        abs(end.x - start.x),
        abs(end.y - start.y),
        0,
        0,
        Seq::empty(),
    )
}

fn contains_position(acc: &Vec<GridPosition>, p: GridPosition) -> (b: bool)
    ensures
        b == acc@.contains(p),
{
    let mut i: usize = 0;
    while i < acc.len()
        invariant
            i <= acc@.len(),
            forall|j: int| 0 <= j < i ==> acc@[j] != p,
        decreases acc.len() - i,
    {
        if acc[i] == p {
            assert(acc@[i as int] == p);
            return true;
        }
        i = i + 1;
    }
    false
}

fn push_new_position(acc: &mut Vec<GridPosition>, x: i64, y: i64)
    ensures
        final(acc)@ == push_position(old(acc)@, x as int, y as int),
{
    if 0 <= x && x <= u32::MAX as i64 && 0 <= y && y <= u32::MAX as i64 {
        let p = GridPosition { x: x as u32, y: y as u32 };
        if !contains_position(acc, p) {
            acc.push(p);
        }
    }
}

/// The square-grid supercover of the segment between two cell centres.
pub fn line_of_effect_supercover(start: GridPosition, end: GridPosition) -> (positions: Vec<
    GridPosition,
>)
    ensures
        positions@ == supercover(start, end),
{
    let mut current_x: i64 = start.x as i64;
    let mut current_y: i64 = start.y as i64;
    let end_x: i64 = end.x as i64;
    let end_y: i64 = end.y as i64;
    let delta_x: u64 = if end_x >= current_x {
        (end_x - current_x) as u64
    } else {
        (current_x - end_x) as u64
    };
    let delta_y: u64 = if end_y >= current_y {
        (end_y - current_y) as u64
    } else {
        (current_y - end_y) as u64
    };
    let step_x: i64 = if end_x > current_x {
        1
    } else if end_x < current_x {
        -1
    } else {
        0
    };
    let step_y: i64 = if end_y > current_y {
        1
    } else if end_y < current_y {
        -1
    } else {
        0
    };
    let mut traversed_x: u64 = 0;
    let mut traversed_y: u64 = 0;
    let mut positions: Vec<GridPosition> = Vec::new();
    let ghost total = delta_x + delta_y;
    while traversed_x < delta_x || traversed_y < delta_y
        invariant
            delta_x == abs(end.x - start.x),
            delta_y == abs(end.y - start.y),
            step_x == sign(end.x - start.x),
            step_y == sign(end.y - start.y),
            total == delta_x + delta_y,
            delta_x <= u32::MAX,
            delta_y <= u32::MAX,
            traversed_x + walk_measure(delta_x as int, delta_y as int, traversed_x as int, traversed_y as int) <= total,
            traversed_y + walk_measure(delta_x as int, delta_y as int, traversed_x as int, traversed_y as int) <= total,
            current_x == start.x + step_x * traversed_x,
            current_y == start.y + step_y * traversed_y,
            supercover_walk(
                current_x as int,
                current_y as int,
                step_x as int,
                step_y as int,
                delta_x as int,
                delta_y as int,
                traversed_x as int,
                traversed_y as int,
                positions@,
            ) == supercover(start, end),
        decreases walk_measure(delta_x as int, delta_y as int, traversed_x as int, traversed_y as int),
    {
        proof {
            lemma_walk_step(delta_x as int, delta_y as int, traversed_x as int, traversed_y as int);
            assert(-1 <= step_x <= 1 && -1 <= step_y <= 1);
            assert(step_x * traversed_x <= traversed_x && step_x * traversed_x >= -traversed_x)
                by (nonlinear_arith)
                requires
                    -1 <= step_x <= 1,
                    traversed_x >= 0,
            ;
            assert(step_y * traversed_y <= traversed_y && step_y * traversed_y >= -traversed_y)
                by (nonlinear_arith)
                requires
                    -1 <= step_y <= 1,
                    traversed_y >= 0,
            ;
        }
        let x_crossing: u64 = match (traversed_x * 2 + 1).checked_mul(delta_y) {
            Some(v) => v,
            None => u64::MAX,
        };
        let y_crossing: u64 = match (traversed_y * 2 + 1).checked_mul(delta_x) {
            Some(v) => v,
            None => u64::MAX,
        };
        assert(x_crossing == sat_u64((2 * traversed_x + 1) * delta_y));
        assert(y_crossing == sat_u64((2 * traversed_y + 1) * delta_x));
        if x_crossing == y_crossing {
            let ax = current_x + step_x;
            let ay = current_y;
            let bx = current_x;
            let by = current_y + step_y;
            if ay < by || (ay == by && ax <= bx) {
                push_new_position(&mut positions, ax, ay);
                push_new_position(&mut positions, bx, by);
            } else {
                push_new_position(&mut positions, bx, by);
                push_new_position(&mut positions, ax, ay);
            }
            current_x = current_x + step_x;
            current_y = current_y + step_y;
            traversed_x = traversed_x + 1;
            traversed_y = traversed_y + 1;
        } else if x_crossing < y_crossing {
            current_x = current_x + step_x;
            traversed_x = traversed_x + 1;
        } else {
            current_y = current_y + step_y;
            traversed_y = traversed_y + 1;
        }
        proof {
            assert(step_x * traversed_x == step_x * (traversed_x - 1) + step_x) by (nonlinear_arith);
            assert(step_y * traversed_y == step_y * (traversed_y - 1) + step_y) by (nonlinear_arith);
        }
        push_new_position(&mut positions, current_x, current_y);
    }
    positions
}

} // verus!

verus! {

/// The identities of the obstructing cells that a walk passes through
/// between its endpoints, in walk order.
pub open spec fn obstruction_ids(
    cells: Seq<RpgCellSetup>,
    path: Seq<GridPosition>,
    start: GridPosition,
    end: GridPosition,
) -> Seq<Seq<char>>
    decreases path.len(),
{
    if path.len() == 0 {
        Seq::empty()
    } else {
        let prev = obstruction_ids(cells, path.drop_last(), start, end);
        let p = path.last();
        let i = last_cell_index(cells, p);
        if p == start || p == end || i < 0 || !cell_obstructs(cells[i]) {
            prev
        } else {
            prev.push(cells[i].id@)
        }
    }
}

/// Whether a walk passes between its endpoints through a position that has
/// no cell.
pub open spec fn walk_meets_gap(
    cells: Seq<RpgCellSetup>,
    path: Seq<GridPosition>,
    start: GridPosition,
    end: GridPosition,
) -> bool {
    exists|k: int|
        0 <= k < path.len() && path[k] != start && path[k] != end && last_cell_index(
            cells,
            #[trigger] path[k],
        ) < 0
}

/// The line-of-effect verdict between two board positions: missing when an
/// endpoint or a traversed position has no cell, blocked when a traversed
/// cell obstructs, clear otherwise.
pub open spec fn line_of_effect_reason(
    cells: Seq<RpgCellSetup>,
    start: GridPosition,
    end: GridPosition,
) -> Option<RpgLineOfEffectReason> {
    let path = supercover(start, end);
    if last_cell_index(cells, start) < 0 || last_cell_index(cells, end) < 0 {
        Some(RpgLineOfEffectReason::CellMissing)
    } else if walk_meets_gap(cells, path, start, end) {
        Some(RpgLineOfEffectReason::CellMissing)
    } else if obstruction_ids(cells, path, start, end).len() == 0 {
        None
    } else {
        Some(RpgLineOfEffectReason::Blocked)
    }
}

pub open spec fn line_of_effect_blockers(
    cells: Seq<RpgCellSetup>,
    start: GridPosition,
    end: GridPosition,
) -> Seq<Seq<char>> {
    if last_cell_index(cells, start) < 0 || last_cell_index(cells, end) < 0 {
        Seq::empty()
    } else {
        obstruction_ids(cells, supercover(start, end), start, end)
    }
}

/// Traces the line of effect between two positions of a board.
pub fn line_of_effect_projection(
    board: &RpgBoardSetup,
    start: GridPosition,
    end: GridPosition,
) -> (projection: RpgLineOfEffectProjection)
    ensures
        projection.reason == line_of_effect_reason(board.cells@, start, end),
        projection.clear == (projection.reason is None),
        texts(projection.blocking_cell_ids@) == line_of_effect_blockers(board.cells@, start, end),
{
    let cells = &board.cells;
    if last_cell_at(cells, start).is_none() || last_cell_at(cells, end).is_none() {
        return RpgLineOfEffectProjection {
            clear: false,
            reason: Some(RpgLineOfEffectReason::CellMissing),
            blocking_cell_ids: Vec::new(),
        };
    }
    let path = line_of_effect_supercover(start, end);
    let mut missing_cell = false;
    let mut blocking_cell_ids: Vec<String> = Vec::new();
    let mut k: usize = 0;
    while k < path.len()
        invariant
            k <= path@.len(),
            path@ == supercover(start, end),
            texts(blocking_cell_ids@) == obstruction_ids(cells@, path@.take(k as int), start, end),
            missing_cell == walk_meets_gap(cells@, path@.take(k as int), start, end),
        decreases path.len() - k,
    {
        let position = path[k];
        proof {
            assert(path@.take(k + 1).drop_last() =~= path@.take(k as int));
            assert(path@.take(k + 1).last() == position);
        }
        let ghost before = blocking_cell_ids@;
        if position == start || position == end {
        } else {
            match last_cell_at(cells, position) {
                None => {
                    missing_cell = true;
                },
                Some(i) => {
                    if cell_blocks_line_of_effect(&cells[i]) {
                        blocking_cell_ids.push(cells[i].id.clone());
                        assert(texts(blocking_cell_ids@) =~= texts(before).push(cells@[i as int].id@));
                    }
                },
            }
        }
        proof {
            let taken = path@.take(k + 1);
            let prior = path@.take(k as int);
            if walk_meets_gap(cells@, prior, start, end) {
                let w = choose|w: int|
                    0 <= w < prior.len() && prior[w] != start && prior[w] != end
                        && last_cell_index(cells@, #[trigger] prior[w]) < 0;
                assert(taken[w] == prior[w]);
            }
            if walk_meets_gap(cells@, taken, start, end) {
                let w = choose|w: int|
                    0 <= w < taken.len() && taken[w] != start && taken[w] != end
                        && last_cell_index(cells@, #[trigger] taken[w]) < 0;
                if w < k {
                    assert(prior[w] == taken[w]);
                }
            }
            if position != start && position != end && last_cell_index(cells@, position) < 0 {
                assert(taken[k as int] == position);
            }
        }
        k = k + 1;
    }
    proof {
        assert(path@.take(path@.len() as int) =~= path@);
    }
    let reason = if missing_cell {
        Some(RpgLineOfEffectReason::CellMissing)
    } else if blocking_cell_ids.len() == 0 {
        None
    } else {
        Some(RpgLineOfEffectReason::Blocked)
    };
    RpgLineOfEffectProjection { clear: reason.is_none(), reason, blocking_cell_ids }
}

/// The offset of coordinate `v` from `origin` counted along a walk that
/// moves by `step`; -1 where the walk never leaves `origin` and `v` differs.
pub open spec fn walk_offset(v: int, origin: int, step: int) -> int {
    if step > 0 {
        v - origin
    } else if step < 0 {
        origin - v
    } else if v == origin {
        0
    } else {
        -1
    }
}

/// The coordinate `t` steps from `origin` along a walk that moves by `step`.
pub open spec fn walk_coordinate(origin: int, step: int, t: int) -> int {
    if step > 0 {
        origin + t
    } else if step < 0 {
        origin - t
    } else {
        origin
    }
}

/// Whether the closed unit square at offset (i, j) from the start centre
/// meets the segment to the end centre, (dx, dy) away.
pub open spec fn square_meets_segment(dx: int, dy: int, i: int, j: int) -> bool {
    &&& 0 <= i <= dx
    &&& 0 <= j <= dy
    &&& (2 * i - 1) * dy <= (2 * j + 1) * dx
    &&& (2 * j - 1) * dx <= (2 * i + 1) * dy
}

/// Whether `p` is a square meeting the segment whose offsets do not pass
/// (tx, ty).
pub open spec fn covered_upto(
    start: GridPosition,
    sx: int,
    sy: int,
    dx: int,
    dy: int,
    tx: int,
    ty: int,
    p: GridPosition,
) -> bool {
    let i = walk_offset(p.x as int, start.x as int, sx);
    let j = walk_offset(p.y as int, start.y as int, sy);
    i <= tx && j <= ty && square_meets_segment(dx, dy, i, j)
}

proof fn lemma_small_product(a: int, b: int)
    requires
        0 <= a <= 4096,
        0 <= b <= 4096,
    ensures
        0 <= a * b <= 4096 * 4096,
{
    assert(0 <= a * b <= 4096 * 4096) by (nonlinear_arith)
        requires
            0 <= a <= 4096,
            0 <= b <= 4096,
    ;
}

/// Reversing the segment maps the square at (i, j) to the one at
/// (dx - i, dy - j).
proof fn lemma_square_mirror(dx: int, dy: int, i: int, j: int)
    ensures
        square_meets_segment(dx, dy, i, j) == square_meets_segment(dx, dy, dx - i, dy - j),
{
    assert((2 * (dx - i) - 1) * dy == 2 * dx * dy - (2 * i + 1) * dy) by (nonlinear_arith);
    assert((2 * (dy - j) + 1) * dx == 2 * dx * dy - (2 * j - 1) * dx) by (nonlinear_arith);
    assert((2 * (dy - j) - 1) * dx == 2 * dx * dy - (2 * j + 1) * dx) by (nonlinear_arith);
    assert((2 * (dx - i) + 1) * dy == 2 * dx * dy - (2 * i - 1) * dy) by (nonlinear_arith);
}

proof fn lemma_push_position(acc: Seq<GridPosition>, x: int, y: int)
    requires
        0 <= x <= u32::MAX,
        0 <= y <= u32::MAX,
    ensures
        forall|p: GridPosition|
            #[trigger] push_position(acc, x, y).contains(p) == (acc.contains(p) || (p.x == x
                && p.y == y)),
{
    let q = GridPosition { x: x as u32, y: y as u32 };
    let r = push_position(acc, x, y);
    assert forall|p: GridPosition| #[trigger] r.contains(p) == (acc.contains(p) || (p.x == x && p.y == y)) by {
        if acc.contains(q) {
            if p.x == x && p.y == y {
                assert(p == q);
            }
        } else {
            assert(r == acc.push(q));
            if acc.contains(p) {
                let k = choose|k: int| 0 <= k < acc.len() && acc[k] == p;
                assert(r[k] == p);
            }
            if p.x == x && p.y == y {
                assert(r[acc.len() as int] == p);
            }
            if r.contains(p) {
                let k = choose|k: int| 0 <= k < r.len() && r[k] == p;
                if k < acc.len() {
                    assert(acc[k] == p);
                }
            }
        }
    }
}

/// What holds at each state of a walk between two positions of a board of
/// valid extents: where it stands, and that the segment has not yet left
/// the current square through a boundary already passed.
pub open spec fn walk_in_reach(
    start: GridPosition,
    sx: int,
    sy: int,
    dx: int,
    dy: int,
    cx: int,
    cy: int,
    tx: int,
    ty: int,
) -> bool {
    &&& 0 <= dx <= 1024
    &&& 0 <= dy <= 1024
    &&& -1 <= sx <= 1
    &&& -1 <= sy <= 1
    &&& (sx == 0) == (dx == 0)
    &&& (sy == 0) == (dy == 0)
    &&& 0 <= walk_coordinate(start.x as int, sx, dx) <= u32::MAX
    &&& 0 <= walk_coordinate(start.y as int, sy, dy) <= u32::MAX
    &&& 0 <= tx <= dx
    &&& 0 <= ty <= dy
    &&& cx == walk_coordinate(start.x as int, sx, tx)
    &&& cy == walk_coordinate(start.y as int, sy, ty)
    &&& (ty == 0 || (2 * tx + 1) * dy > (2 * ty - 1) * dx)
    &&& (tx == 0 || (2 * ty + 1) * dx > (2 * tx - 1) * dy)
}

/// A step into the next column meets, in that column, only the square in the
/// current row.
proof fn lemma_column_cell(dx: int, dy: int, tx: int, ty: int, j: int)
    requires
        0 <= tx < dx <= 1024,
        0 <= ty <= dy <= 1024,
        (2 * tx + 1) * dy < (2 * ty + 1) * dx,
        ty == 0 || (2 * tx + 1) * dy > (2 * ty - 1) * dx,
        0 <= j <= ty,
    ensures
        square_meets_segment(dx, dy, tx + 1, j) == (j == ty),
        (2 * ty + 1) * dx > (2 * (tx + 1) - 1) * dy,
        ty == 0 || (2 * (tx + 1) + 1) * dy > (2 * ty - 1) * dx,
{
    assert((2 * (tx + 1) + 1) * dy == (2 * tx + 1) * dy + 2 * dy) by (nonlinear_arith);
    assert((2 * (tx + 1) - 1) * dy == (2 * tx + 1) * dy) by (nonlinear_arith);
    assert(0 <= (2 * tx + 1) * dy) by (nonlinear_arith)
        requires
            tx >= 0,
            dy >= 0,
    ;
    assert(0 <= (2 * ty + 1) * dx) by (nonlinear_arith)
        requires
            ty >= 0,
            dx >= 0,
    ;
    if j < ty {
        assert((2 * j + 1) * dx <= (2 * ty - 1) * dx) by (nonlinear_arith)
            requires
                j < ty,
                dx >= 0,
        ;
    } else {
        assert((2 * j - 1) * dx <= (2 * tx + 1) * dy + 2 * dy) by (nonlinear_arith)
            requires
                j == ty,
                ty == 0 || (2 * tx + 1) * dy > (2 * ty - 1) * dx,
                0 <= (2 * tx + 1) * dy,
                dx >= 0,
                dy >= 0,
        ;
    }
}

/// A step into the next row meets, in that row, only the square in the
/// current column.
proof fn lemma_row_cell(dx: int, dy: int, tx: int, ty: int, i: int)
    requires
        0 <= tx <= dx <= 1024,
        0 <= ty < dy <= 1024,
        (2 * tx + 1) * dy > (2 * ty + 1) * dx,
        tx == 0 || (2 * ty + 1) * dx > (2 * tx - 1) * dy,
        0 <= i <= tx,
    ensures
        square_meets_segment(dx, dy, i, ty + 1) == (i == tx),
        (2 * tx + 1) * dy > (2 * (ty + 1) - 1) * dx,
        tx == 0 || (2 * (ty + 1) + 1) * dx > (2 * tx - 1) * dy,
{
    assert((2 * (ty + 1) + 1) * dx == (2 * ty + 1) * dx + 2 * dx) by (nonlinear_arith);
    assert((2 * (ty + 1) - 1) * dx == (2 * ty + 1) * dx) by (nonlinear_arith);
    assert(0 <= (2 * tx + 1) * dy) by (nonlinear_arith)
        requires
            tx >= 0,
            dy >= 0,
    ;
    assert(0 <= (2 * ty + 1) * dx) by (nonlinear_arith)
        requires
            ty >= 0,
            dx >= 0,
    ;
    if i < tx {
        assert((2 * i + 1) * dy <= (2 * tx - 1) * dy) by (nonlinear_arith)
            requires
                i < tx,
                dy >= 0,
        ;
    } else {
        assert((2 * i - 1) * dy <= (2 * ty + 1) * dx + 2 * dx) by (nonlinear_arith)
            requires
                i == tx,
                tx == 0 || (2 * ty + 1) * dx > (2 * tx - 1) * dy,
                0 <= (2 * ty + 1) * dx,
                dx >= 0,
                dy >= 0,
        ;
    }
}

/// Where the segment passes exactly through a corner, the walk is strictly
/// inside both extents, and the squares it meets past the corner are the
/// three that touch it.
proof fn lemma_corner_cells(dx: int, dy: int, tx: int, ty: int, i: int, j: int)
    requires
        0 <= tx <= dx <= 1024,
        0 <= ty <= dy <= 1024,
        tx < dx || ty < dy,
        (2 * tx + 1) * dy == (2 * ty + 1) * dx,
    ensures
        tx < dx,
        ty < dy,
        0 <= j <= ty + 1 ==> square_meets_segment(dx, dy, tx + 1, j) == (j >= ty),
        0 <= i <= tx + 1 ==> square_meets_segment(dx, dy, i, ty + 1) == (i >= tx),
        (2 * (tx + 1) + 1) * dy > (2 * (ty + 1) - 1) * dx,
        (2 * (ty + 1) + 1) * dx > (2 * (tx + 1) - 1) * dy,
{
    assert(tx < dx && ty < dy && dx > 0 && dy > 0) by (nonlinear_arith)
        requires
            0 <= tx <= dx,
            0 <= ty <= dy,
            tx < dx || ty < dy,
            (2 * tx + 1) * dy == (2 * ty + 1) * dx,
    ;
    assert((2 * (tx + 1) + 1) * dy == (2 * tx + 1) * dy + 2 * dy) by (nonlinear_arith);
    assert((2 * (tx + 1) - 1) * dy == (2 * tx + 1) * dy) by (nonlinear_arith);
    assert((2 * (ty + 1) + 1) * dx == (2 * ty + 1) * dx + 2 * dx) by (nonlinear_arith);
    assert((2 * (ty + 1) - 1) * dx == (2 * ty + 1) * dx) by (nonlinear_arith);
    if 0 <= j <= ty + 1 {
        assert(((2 * ty + 1) * dx <= (2 * j + 1) * dx) == (j >= ty)) by (nonlinear_arith)
            requires
                dx > 0,
        ;
        assert((2 * j - 1) * dx <= (2 * ty + 1) * dx) by (nonlinear_arith)
            requires
                j <= ty + 1,
                dx > 0,
        ;
    }
    if 0 <= i <= tx + 1 {
        assert(((2 * tx + 1) * dy <= (2 * i + 1) * dy) == (i >= tx)) by (nonlinear_arith)
            requires
                dy > 0,
        ;
        assert((2 * i - 1) * dy <= (2 * tx + 1) * dy) by (nonlinear_arith)
            requires
                i <= tx + 1,
                dy > 0,
        ;
    }
}

/// A walk from a state in reach records, together with its start, exactly
/// the squares that meet the segment.
proof fn lemma_walk_cover(
    start: GridPosition,
    sx: int,
    sy: int,
    dx: int,
    dy: int,
    cx: int,
    cy: int,
    tx: int,
    ty: int,
    acc: Seq<GridPosition>,
)
    requires
        walk_in_reach(start, sx, sy, dx, dy, cx, cy, tx, ty),
        !acc.contains(start),
        forall|p: GridPosition|
            #![trigger acc.contains(p)]
            #![trigger covered_upto(start, sx, sy, dx, dy, tx, ty, p)]
            (acc.contains(p) || p == start) == covered_upto(start, sx, sy, dx, dy, tx, ty, p),
    ensures
        !supercover_walk(cx, cy, sx, sy, dx, dy, tx, ty, acc).contains(start),
        forall|p: GridPosition|
            #![trigger supercover_walk(cx, cy, sx, sy, dx, dy, tx, ty, acc).contains(p)]
            (supercover_walk(cx, cy, sx, sy, dx, dy, tx, ty, acc).contains(p) || p == start)
                == covered_upto(start, sx, sy, dx, dy, dx, dy, p),
    decreases walk_measure(dx, dy, tx, ty),
{
    let x0 = start.x as int;
    let y0 = start.y as int;
    if tx < dx || ty < dy {
        let xc = (2 * tx + 1) * dy;
        let yc = (2 * ty + 1) * dx;
        lemma_small_product(2 * tx + 1, dy);
        lemma_small_product(2 * ty + 1, dx);
        assert(sat_u64(xc) == xc && sat_u64(yc) == yc);
        lemma_walk_step(dx, dy, tx, ty);
        if xc == yc {
            lemma_corner_cells(dx, dy, tx, ty, 0, 0);
            let ax = cx + sx;
            let ay = cy;
            let bx = cx;
            let by = cy + sy;
            let first = push_position(acc, ax, ay);
            let second = push_position(acc, bx, by);
            let corners = if ay < by || (ay == by && ax <= bx) {
                push_position(first, bx, by)
            } else {
                push_position(second, ax, ay)
            };
            let next = push_position(corners, cx + sx, cy + sy);
            lemma_push_position(acc, ax, ay);
            lemma_push_position(acc, bx, by);
            lemma_push_position(first, bx, by);
            lemma_push_position(second, ax, ay);
            lemma_push_position(corners, cx + sx, cy + sy);
            assert forall|p: GridPosition|
                #![trigger next.contains(p)]
                #![trigger covered_upto(start, sx, sy, dx, dy, tx + 1, ty + 1, p)]
                (next.contains(p) || p == start) == covered_upto(
                    start,
                    sx,
                    sy,
                    dx,
                    dy,
                    tx + 1,
                    ty + 1,
                    p,
                ) by {
                let i = walk_offset(p.x as int, x0, sx);
                let j = walk_offset(p.y as int, y0, sy);
                lemma_corner_cells(dx, dy, tx, ty, i, j);
                assert(acc.contains(p) || p == start ==> covered_upto(start, sx, sy, dx, dy, tx, ty, p));
                assert(covered_upto(start, sx, sy, dx, dy, tx, ty, p) ==> acc.contains(p) || p == start);
            }
            assert(!next.contains(start));
            lemma_walk_cover(start, sx, sy, dx, dy, cx + sx, cy + sy, tx + 1, ty + 1, next);
        } else if xc < yc {
            let next = push_position(acc, cx + sx, cy);
            lemma_push_position(acc, cx + sx, cy);
            lemma_column_cell(dx, dy, tx, ty, 0);
            assert forall|p: GridPosition|
                #![trigger next.contains(p)]
                #![trigger covered_upto(start, sx, sy, dx, dy, tx + 1, ty, p)]
                (next.contains(p) || p == start) == covered_upto(
                    start,
                    sx,
                    sy,
                    dx,
                    dy,
                    tx + 1,
                    ty,
                    p,
                ) by {
                let i = walk_offset(p.x as int, x0, sx);
                let j = walk_offset(p.y as int, y0, sy);
                if 0 <= j <= ty {
                    lemma_column_cell(dx, dy, tx, ty, j);
                }
                assert(acc.contains(p) || p == start ==> covered_upto(start, sx, sy, dx, dy, tx, ty, p));
                assert(covered_upto(start, sx, sy, dx, dy, tx, ty, p) ==> acc.contains(p) || p == start);
            }
            assert(!next.contains(start));
            lemma_walk_cover(start, sx, sy, dx, dy, cx + sx, cy, tx + 1, ty, next);
        } else {
            let next = push_position(acc, cx, cy + sy);
            lemma_push_position(acc, cx, cy + sy);
            lemma_row_cell(dx, dy, tx, ty, 0);
            assert forall|p: GridPosition|
                #![trigger next.contains(p)]
                #![trigger covered_upto(start, sx, sy, dx, dy, tx, ty + 1, p)]
                (next.contains(p) || p == start) == covered_upto(
                    start,
                    sx,
                    sy,
                    dx,
                    dy,
                    tx,
                    ty + 1,
                    p,
                ) by {
                let i = walk_offset(p.x as int, x0, sx);
                let j = walk_offset(p.y as int, y0, sy);
                if 0 <= i <= tx {
                    lemma_row_cell(dx, dy, tx, ty, i);
                }
                assert(acc.contains(p) || p == start ==> covered_upto(start, sx, sy, dx, dy, tx, ty, p));
                assert(covered_upto(start, sx, sy, dx, dy, tx, ty, p) ==> acc.contains(p) || p == start);
            }
            assert(!next.contains(start));
            lemma_walk_cover(start, sx, sy, dx, dy, cx, cy + sy, tx, ty + 1, next);
        }
    }
}

/// Whether the square at `p` meets the segment from the centre of `a` to
/// the centre of `b`.
pub open spec fn segment_square(a: GridPosition, b: GridPosition, p: GridPosition) -> bool {
    square_meets_segment(
        abs(b.x - a.x),
        abs(b.y - a.y),
        walk_offset(p.x as int, a.x as int, sign(b.x - a.x)),
        walk_offset(p.y as int, a.y as int, sign(b.y - a.y)),
    )
}

/// On a board of valid extents, the supercover from `a` to `b`, with `a`
/// added, is exactly the set of squares that meet the segment.
proof fn lemma_supercover_cover(a: GridPosition, b: GridPosition)
    requires
        a.x < MAXIMUM_BOARD_EXTENT,
        a.y < MAXIMUM_BOARD_EXTENT,
        b.x < MAXIMUM_BOARD_EXTENT,
        b.y < MAXIMUM_BOARD_EXTENT,
    ensures
        !supercover(a, b).contains(a),
        forall|p: GridPosition|
            #![trigger supercover(a, b).contains(p)]
            (supercover(a, b).contains(p) || p == a) == segment_square(a, b, p),
{
    let sx = sign(b.x - a.x);
    let sy = sign(b.y - a.y);
    let dx = abs(b.x - a.x);
    let dy = abs(b.y - a.y);
    let empty = Seq::<GridPosition>::empty();
    assert(square_meets_segment(dx, dy, 0, 0)) by (nonlinear_arith)
        requires
            dx >= 0,
            dy >= 0,
    ;
    assert forall|p: GridPosition|
        #![trigger empty.contains(p)]
        #![trigger covered_upto(a, sx, sy, dx, dy, 0, 0, p)]
        (empty.contains(p) || p == a) == covered_upto(a, sx, sy, dx, dy, 0, 0, p) by {
        if p.x == a.x && p.y == a.y {
            assert(p == a);
        }
    }
    lemma_walk_cover(a, sx, sy, dx, dy, a.x as int, a.y as int, 0, 0, empty);
}

/// Reversing the segment does not change which squares it meets.
proof fn lemma_segment_square_mirror(a: GridPosition, b: GridPosition, p: GridPosition)
    ensures
        segment_square(a, b, p) == segment_square(b, a, p),
{
    let dx = abs(b.x - a.x);
    let dy = abs(b.y - a.y);
    let i = walk_offset(p.x as int, a.x as int, sign(b.x - a.x));
    let j = walk_offset(p.y as int, a.y as int, sign(b.y - a.y));
    lemma_square_mirror(dx, dy, i, j);
}

/// The identity `id` belongs to a cell that obstructs at `p`, a position
/// other than the endpoints.
pub open spec fn obstructs_with(
    cells: Seq<RpgCellSetup>,
    p: GridPosition,
    start: GridPosition,
    end: GridPosition,
    id: Seq<char>,
) -> bool {
    let i = last_cell_index(cells, p);
    &&& p != start
    &&& p != end
    &&& i >= 0
    &&& cell_obstructs(cells[i])
    &&& cells[i].id@ == id
}

proof fn lemma_obstruction_ids_members(
    cells: Seq<RpgCellSetup>,
    path: Seq<GridPosition>,
    start: GridPosition,
    end: GridPosition,
)
    ensures
        forall|id: Seq<char>|
            #![trigger obstruction_ids(cells, path, start, end).contains(id)]
            obstruction_ids(cells, path, start, end).contains(id) == exists|k: int|
                0 <= k < path.len() && obstructs_with(cells, #[trigger] path[k], start, end, id),
    decreases path.len(),
{
    if path.len() > 0 {
        let rest = path.drop_last();
        lemma_obstruction_ids_members(cells, rest, start, end);
        let prev = obstruction_ids(cells, rest, start, end);
        let ids = obstruction_ids(cells, path, start, end);
        let last = path.len() - 1;
        assert forall|id: Seq<char>|
            #![trigger ids.contains(id)]
            ids.contains(id) == exists|k: int|
                0 <= k < path.len() && obstructs_with(cells, #[trigger] path[k], start, end, id) by {
            if ids.contains(id) {
                let n = choose|n: int| 0 <= n < ids.len() && ids[n] == id;
                if n < prev.len() {
                    assert(prev[n] == id);
                    assert(prev.contains(id));
                    let k = choose|k: int| 0 <= k < rest.len() && obstructs_with(cells, #[trigger] rest[k], start, end, id);
                    assert(path[k] == rest[k]);
                } else {
                    assert(obstructs_with(cells, path[last], start, end, id));
                }
            }
            if exists|k: int| 0 <= k < path.len() && obstructs_with(cells, #[trigger] path[k], start, end, id) {
                let k = choose|k: int| 0 <= k < path.len() && obstructs_with(cells, #[trigger] path[k], start, end, id);
                if k < last {
                    assert(rest[k] == path[k]);
                    assert(prev.contains(id));
                    let n = choose|n: int| 0 <= n < prev.len() && prev[n] == id;
                    assert(ids[n] == id);
                } else {
                    assert(ids[ids.len() - 1] == id);
                }
            }
        }
    }
}

/// Line of effect is symmetric between two positions of a board of valid
/// extents: traced from either end it gives the same verdict, and the same
/// blocking cells, whatever their order.
pub proof fn lemma_line_of_effect_symmetric(
    cells: Seq<RpgCellSetup>,
    a: GridPosition,
    b: GridPosition,
)
    requires
        a.x < MAXIMUM_BOARD_EXTENT,
        a.y < MAXIMUM_BOARD_EXTENT,
        b.x < MAXIMUM_BOARD_EXTENT,
        b.y < MAXIMUM_BOARD_EXTENT,
    ensures
        line_of_effect_reason(cells, a, b) == line_of_effect_reason(cells, b, a),
        line_of_effect_blockers(cells, a, b).to_set() == line_of_effect_blockers(
            cells,
            b,
            a,
        ).to_set(),
{
    lemma_supercover_cover(a, b);
    lemma_supercover_cover(b, a);
    let f = supercover(a, b);
    let g = supercover(b, a);
    assert forall|p: GridPosition|
        #![trigger f.contains(p)]
        #![trigger g.contains(p)]
        p != a && p != b implies f.contains(p) == g.contains(p) by {
        lemma_segment_square_mirror(a, b, p);
    }
    if walk_meets_gap(cells, f, a, b) {
        let k = choose|k: int|
            0 <= k < f.len() && f[k] != a && f[k] != b && last_cell_index(cells, #[trigger] f[k]) < 0;
        assert(f.contains(f[k]));
        let m = choose|m: int| 0 <= m < g.len() && g[m] == f[k];
        assert(g[m] != b && g[m] != a && last_cell_index(cells, g[m]) < 0);
    }
    if walk_meets_gap(cells, g, b, a) {
        let k = choose|k: int|
            0 <= k < g.len() && g[k] != b && g[k] != a && last_cell_index(cells, #[trigger] g[k]) < 0;
        assert(g.contains(g[k]));
        let m = choose|m: int| 0 <= m < f.len() && f[m] == g[k];
        assert(f[m] != a && f[m] != b && last_cell_index(cells, f[m]) < 0);
    }
    lemma_obstruction_ids_members(cells, f, a, b);
    lemma_obstruction_ids_members(cells, g, b, a);
    let fi = obstruction_ids(cells, f, a, b);
    let gi = obstruction_ids(cells, g, b, a);
    assert forall|id: Seq<char>| #[trigger] fi.contains(id) == gi.contains(id) by {
        if fi.contains(id) {
            let k = choose|k: int| 0 <= k < f.len() && obstructs_with(cells, #[trigger] f[k], a, b, id);
            assert(f.contains(f[k]));
            let m = choose|m: int| 0 <= m < g.len() && g[m] == f[k];
            assert(obstructs_with(cells, g[m], b, a, id));
        }
        if gi.contains(id) {
            let k = choose|k: int| 0 <= k < g.len() && obstructs_with(cells, #[trigger] g[k], b, a, id);
            assert(g.contains(g[k]));
            let m = choose|m: int| 0 <= m < f.len() && f[m] == g[k];
            assert(obstructs_with(cells, f[m], a, b, id));
        }
    }
    if fi.len() > 0 {
        assert(fi.contains(fi[0]));
        assert(gi.contains(fi[0]));
    }
    if gi.len() > 0 {
        assert(gi.contains(gi[0]));
        assert(fi.contains(gi[0]));
    }
    assert(walk_meets_gap(cells, f, a, b) == walk_meets_gap(cells, g, b, a));
    assert((fi.len() == 0) == (gi.len() == 0));
    assert(line_of_effect_blockers(cells, a, b).to_set() =~= line_of_effect_blockers(
        cells,
        b,
        a,
    ).to_set());
}

} // verus!
