use vstd::prelude::*;

use crate::board::{
    last_cell_at, last_cell_index, GridPosition, RpgBoardSetup,
    RpgCellCapabilitySetup, RpgCellCapabilityValue, RpgCellSetup,
};
use crate::model::{entity_index, find_entity, RpgEntityState};
use crate::text::texts;

verus! {

/// One reachable destination with its route and total movement cost.
#[derive(Debug, Clone)]
pub struct RpgCellPathView {
    pub destination_cell_id: String,
    pub cell_ids: Vec<String>,
    pub movement_cost: u32,
}

/// The first traversal fact among a cell's capabilities, if any.
pub open spec fn first_traversal(caps: Seq<RpgCellCapabilitySetup>) -> Option<(bool, u32)>
    decreases caps.len(),
{
    if caps.len() == 0 {
        None
    } else {
        match caps[0].value {
            RpgCellCapabilityValue::Traversal { passable, movement_cost } => Some(
                (passable, movement_cost),
            ),
            _ => first_traversal(caps.drop_first()),
        }
    }
}

/// The traversal of a cell: its first traversal fact, or passable at cost 1.
pub open spec fn traversal(cell: RpgCellSetup) -> (bool, u32) {
    match first_traversal(cell.capabilities@) {
        Some(t) => t,
        None => (true, 1u32),
    }
}

/// The cost of entering a position, or 0 when it cannot be entered (no cell,
/// impassable, or a zero cost).
pub open spec fn entry_cost(cells: Seq<RpgCellSetup>, p: GridPosition) -> int {
    let i = last_cell_index(cells, p);
    if i < 0 {
        0
    } else {
        let t = traversal(cells[i]);
        if !t.0 {
            0
        } else {
            t.1 as int
        }
    }
}

pub open spec fn occupied_by_other(
    entities: Seq<RpgEntityState>,
    actor_id: Seq<char>,
    p: GridPosition,
) -> bool {
    exists|e: int|
        0 <= e < entities.len() && (#[trigger] entities[e]).id@ != actor_id && entities[e].position
            == p
}

/// One step to an orthogonal neighbour: up or left, or right or down while
/// staying within the board's width and height.
pub open spec fn board_step(board: &RpgBoardSetup, a: GridPosition, b: GridPosition) -> bool {
    ||| (b.x == a.x && b.y + 1 == a.y)
    ||| (b.y == a.y && b.x + 1 == a.x)
    ||| (b.y == a.y && b.x == a.x + 1 && a.x + 1 < board.width)
    ||| (b.x == a.x && b.y == a.y + 1 && a.y + 1 < board.height)
}

pub open spec fn sat_u32(v: int) -> int {
    if v > u32::MAX {
        u32::MAX as int
    } else {
        v
    }
}

/// The saturating sum of the entry costs along a route.
pub open spec fn route_cost(cells: Seq<RpgCellSetup>, route: Seq<GridPosition>) -> int
    decreases route.len(),
{
    if route.len() == 0 {
        0
    } else {
        sat_u32(route_cost(cells, route.drop_last()) + entry_cost(cells, route.last()))
    }
}

/// A route from `origin`: orthogonal steps onto unoccupied, enterable cells, with `ids` naming the cell entered at each step.
pub open spec fn movement_route(
    board: &RpgBoardSetup,
    entities: Seq<RpgEntityState>,
    actor_id: Seq<char>,
    origin: GridPosition,
    route: Seq<GridPosition>,
    ids: Seq<Seq<char>>,
) -> bool
    decreases route.len(),
{
    if route.len() == 0 {
        ids.len() == 0
    } else {
        let n = route.len();
        let p = route[n - 1];
        let prev = if n == 1 {
            origin
        } else {
            route[n - 2]
        };
        let i = last_cell_index(board.cells@, p);
        &&& ids.len() == n
        &&& board_step(board, prev, p)
        &&& !occupied_by_other(entities, actor_id, p)
        &&& i >= 0
        &&& entry_cost(board.cells@, p) > 0
        &&& ids[n - 1] == board.cells@[i].id@
        &&& movement_route(board, entities, actor_id, origin, route.drop_last(), ids.drop_last())
    }
}

pub open spec fn route_end(origin: GridPosition, route: Seq<GridPosition>) -> GridPosition {
    if route.len() == 0 {
        origin
    } else {
        route.last()
    }
}

/// Byte-free lexicographic order of two routes by row, then column.
pub open spec fn route_lt(a: Seq<GridPosition>, b: Seq<GridPosition>) -> bool
    decreases a.len(),
{
    if b.len() == 0 {
        false
    } else if a.len() == 0 {
        true
    } else if a[0].y < b[0].y || (a[0].y == b[0].y && a[0].x < b[0].x) {
        true
    } else if a[0] == b[0] {
        route_lt(a.drop_first(), b.drop_first())
    } else {
        false
    }
}

/// A reported path is sound: its cell identities follow a movement route
/// from the actor's position to a board cell other than the origin, and its
/// cost is that route's cost, within the budget.
pub open spec fn path_sound(
    board: &RpgBoardSetup,
    entities: Seq<RpgEntityState>,
    actor_id: Seq<char>,
    maximum_distance: u32,
    view: RpgCellPathView,
) -> bool {
    let origin = entities[entity_index(entities, actor_id)].position;
    exists|route: Seq<GridPosition>, j: int|
        #![trigger board.cells@[j], route.len()]
        {
            &&& movement_route(board, entities, actor_id, origin, route, texts(view.cell_ids@))
            &&& route.len() > 0
            &&& view.movement_cost as int == route_cost(board.cells@, route)
            &&& view.movement_cost <= maximum_distance
            &&& 0 <= j < board.cells@.len()
            &&& board.cells@[j].position == route.last()
            &&& board.cells@[j].position != origin
            &&& view.destination_cell_id@ == board.cells@[j].id@
        }
}

struct RouteCandidate {
    movement_cost: u32,
    route: Vec<GridPosition>,
    position: GridPosition,
    cell_ids: Vec<String>,
}

spec fn candidate_ok(
    board: &RpgBoardSetup,
    entities: Seq<RpgEntityState>,
    actor_id: Seq<char>,
    origin: GridPosition,
    maximum_distance: u32,
    c: RouteCandidate,
) -> bool {
    &&& movement_route(board, entities, actor_id, origin, c.route@, texts(c.cell_ids@))
    &&& c.movement_cost as int == route_cost(board.cells@, c.route@)
    &&& c.movement_cost <= maximum_distance
    &&& c.position == route_end(origin, c.route@)
}

spec fn allowed_positions(cells: Seq<RpgCellSetup>, origin: GridPosition) -> Set<GridPosition> {
    cells.map_values(|c: RpgCellSetup| c.position).push(origin).to_set()
}

fn route_before(a: &Vec<GridPosition>, b: &Vec<GridPosition>) -> (r: bool)
    ensures
        r == route_lt(a@, b@),
{
    let mut i: usize = 0;
    assert(a@.skip(0) =~= a@);
    assert(b@.skip(0) =~= b@);
    while i < a.len() && i < b.len() && a[i] == b[i]
        invariant
            i <= a@.len(),
            i <= b@.len(),
            route_lt(a@, b@) == route_lt(a@.skip(i as int), b@.skip(i as int)),
        decreases a.len() - i,
    {
        assert(a@.skip(i as int).drop_first() =~= a@.skip(i + 1));
        assert(b@.skip(i as int).drop_first() =~= b@.skip(i + 1));
        assert(a@.skip(i as int)[0] == a@[i as int]);
        assert(b@.skip(i as int)[0] == b@[i as int]);
        i = i + 1;
    }
    if i == b.len() {
        false
    } else if i == a.len() {
        true
    } else {
        assert(a@.skip(i as int)[0] == a@[i as int]);
        assert(b@.skip(i as int)[0] == b@[i as int]);
        a[i].y < b[i].y || (a[i].y == b[i].y && a[i].x < b[i].x)
    }
}

/// `(cost_a, route_a) < (cost_b, route_b)` lexicographically.
fn rank_before(
    cost_a: u32,
    route_a: &Vec<GridPosition>,
    cost_b: u32,
    route_b: &Vec<GridPosition>,
) -> (r: bool)
    ensures
        r == (cost_a < cost_b || (cost_a == cost_b && route_lt(route_a@, route_b@))),
{
    cost_a < cost_b || (cost_a == cost_b && route_before(route_a, route_b))
}

fn copy_positions(v: &Vec<GridPosition>) -> (r: Vec<GridPosition>)
    ensures
        r@ == v@,
{
    let mut r: Vec<GridPosition> = Vec::new();
    let mut i: usize = 0;
    while i < v.len()
        invariant
            i <= v@.len(),
            r@ == v@.take(i as int),
        decreases v.len() - i,
    {
        r.push(v[i]);
        assert(v@.take(i + 1) =~= v@.take(i as int).push(v@[i as int]));
        i = i + 1;
    }
    assert(v@.take(v@.len() as int) =~= v@);
    r
}

pub fn copy_texts(v: &Vec<String>) -> (r: Vec<String>)
    ensures
        r@ == v@,
{
    let mut r: Vec<String> = Vec::new();
    let mut i: usize = 0;
    while i < v.len()
        invariant
            i <= v@.len(),
            r@ == v@.take(i as int),
        decreases v.len() - i,
    {
        r.push(v[i].clone());
        assert(v@.take(i + 1) =~= v@.take(i as int).push(v@[i as int]));
        i = i + 1;
    }
    assert(v@.take(v@.len() as int) =~= v@);
    r
}

fn position_listed(v: &Vec<GridPosition>, p: GridPosition) -> (b: bool)
    ensures
        b == v@.contains(p),
{
    let mut i: usize = 0;
    while i < v.len()
        invariant
            i <= v@.len(),
            forall|j: int| 0 <= j < i ==> v@[j] != p,
        decreases v.len() - i,
    {
        if v[i] == p {
            assert(v@[i as int] == p);
            return true;
        }
        i = i + 1;
    }
    false
}

fn occupied_by_other_exec(entities: &Vec<RpgEntityState>, actor_id: &String, p: GridPosition) -> (b:
    bool)
    ensures
        b == occupied_by_other(entities@, actor_id@, p),
{
    let mut e: usize = 0;
    while e < entities.len()
        invariant
            e <= entities@.len(),
            forall|j: int|
                0 <= j < e ==> !((#[trigger] entities@[j]).id@ != actor_id@ && entities@[j].position
                    == p),
        decreases entities.len() - e,
    {
        if entities[e].id != *actor_id && entities[e].position == p {
            assert(entities@[e as int].id@ != actor_id@ && entities@[e as int].position == p);
            return true;
        }
        e = e + 1;
    }
    false
}

fn cell_traversal(cell: &RpgCellSetup) -> (t: (bool, u32))
    ensures
        t == traversal(*cell),
{
    let caps = &cell.capabilities;
    let mut k: usize = 0;
    assert(caps@.skip(0) =~= caps@);
    while k < caps.len()
        invariant
            caps@ == cell.capabilities@,
            k <= caps@.len(),
            first_traversal(caps@) == first_traversal(caps@.skip(k as int)),
        decreases caps.len() - k,
    {
        proof {
            assert(caps@.skip(k as int)[0] == caps@[k as int]);
            assert(caps@.skip(k as int).drop_first() =~= caps@.skip(k + 1));
        }
        if let RpgCellCapabilityValue::Traversal { passable, movement_cost } = caps[k].value {
            assert(first_traversal(caps@.skip(k as int)) == Some((passable, movement_cost)));
            assert(first_traversal(cell.capabilities@) == Some((passable, movement_cost)));
            assert(traversal(*cell) == (passable, movement_cost));
            return (passable, movement_cost);
        }
        k = k + 1;
    }
    (true, 1)
}

fn find_route_for(best: &Vec<RouteCandidate>, p: GridPosition) -> (r: Option<usize>)
    ensures
        match r {
            Some(i) => i < best@.len() && best@[i as int].position == p,
            None => forall|j: int| 0 <= j < best@.len() ==> (#[trigger] best@[j]).position != p,
        },
{
    let mut i: usize = 0;
    while i < best.len()
        invariant
            i <= best@.len(),
            forall|j: int| 0 <= j < i ==> (#[trigger] best@[j]).position != p,
        decreases best.len() - i,
    {
        if best[i].position == p {
            return Some(i);
        }
        i = i + 1;
    }
    None
}

/// Row-major order of two positions.
pub open spec fn position_lt(a: GridPosition, b: GridPosition) -> bool {
    a.y < b.y || (a.y == b.y && a.x < b.x)
}

/// `route_lt` is a strict total order.
proof fn lemma_route_order(a: Seq<GridPosition>, b: Seq<GridPosition>, c: Seq<GridPosition>)
    ensures
        !route_lt(a, a),
        route_lt(a, b) ==> !route_lt(b, a),
        route_lt(a, b) && route_lt(b, c) ==> route_lt(a, c),
        a != b ==> route_lt(a, b) || route_lt(b, a),
    decreases a.len(),
{
    if a.len() > 0 {
        lemma_route_order(a.drop_first(), b.drop_first(), c.drop_first());
        if b.len() > 0 && a[0] == b[0] && a.drop_first() == b.drop_first() {
            assert(a =~= b) by {
                assert forall|i: int| 0 <= i < a.len() implies a[i] == b[i] by {
                    if i > 0 {
                        assert(a[i] == a.drop_first()[i - 1]);
                        assert(b[i] == b.drop_first()[i - 1]);
                    }
                }
            }
        }
    } else if b.len() == 0 {
        assert(a =~= b);
    }
}

/// `(ca, ra)` comes strictly before `(cb, rb)`: cheaper, or as cheap with a
/// row-major earlier route.
pub open spec fn key_before(ca: int, ra: Seq<GridPosition>, cb: int, rb: Seq<GridPosition>) -> bool {
    ca < cb || (ca == cb && route_lt(ra, rb))
}

proof fn lemma_key_order(
    ca: int,
    ra: Seq<GridPosition>,
    cb: int,
    rb: Seq<GridPosition>,
    cc: int,
    rc: Seq<GridPosition>,
)
    ensures
        !key_before(ca, ra, ca, ra),
        key_before(ca, ra, cb, rb) ==> !key_before(cb, rb, ca, ra),
        key_before(ca, ra, cb, rb) && key_before(cb, rb, cc, rc) ==> key_before(ca, ra, cc, rc),
        !key_before(ca, ra, cb, rb) && !key_before(cb, rb, ca, ra) ==> ca == cb && ra == rb,
        !key_before(cb, rb, ca, ra) && !key_before(cc, rc, cb, rb) ==> !key_before(cc, rc, ca, ra),
{
    lemma_route_order(ra, rb, rc);
    lemma_route_order(rb, ra, rc);
    lemma_route_order(rc, rb, ra);
    lemma_route_order(rb, rc, ra);
    lemma_route_order(ra, rc, rb);
    lemma_route_order(rc, ra, rb);
}

/// A route comes before any of its extensions.
proof fn lemma_route_lt_push(r: Seq<GridPosition>, v: GridPosition)
    ensures
        route_lt(r, r.push(v)),
    decreases r.len(),
{
    if r.len() > 0 {
        assert(r.push(v).drop_first() =~= r.drop_first().push(v));
        assert(r.push(v)[0] == r[0]);
        lemma_route_lt_push(r.drop_first(), v);
    }
}

/// The order of two routes survives extending both, unless the first is a
/// proper prefix of the second.
proof fn lemma_route_lt_extend(a: Seq<GridPosition>, b: Seq<GridPosition>, x: GridPosition, y: GridPosition)
    requires
        route_lt(a, b),
        !(a.len() < b.len() && b.take(a.len() as int) == a),
    ensures
        route_lt(a.push(x), b.push(y)),
    decreases a.len(),
{
    if a.len() == 0 {
        assert(b.take(0) =~= a);
    } else {
        assert(a.push(x)[0] == a[0]);
        assert(b.push(y)[0] == b[0]);
        assert(a.push(x).drop_first() =~= a.drop_first().push(x));
        assert(b.push(y).drop_first() =~= b.drop_first().push(y));
        if a[0] == b[0] && !position_lt(a[0], b[0]) {
            if a.drop_first().len() < b.drop_first().len() && b.drop_first().take(
                a.drop_first().len() as int,
            ) == a.drop_first() {
                assert(b.take(a.len() as int) =~= a) by {
                    assert forall|i: int| 0 <= i < a.len() implies b.take(a.len() as int)[i] == a[i] by {
                        if i > 0 {
                            assert(b.drop_first().take(a.drop_first().len() as int)[i - 1] == a.drop_first()[i - 1]);
                        }
                    }
                }
            }
            lemma_route_lt_extend(a.drop_first(), b.drop_first(), x, y);
        }
    }
}

spec fn ranks_before(a: RouteCandidate, b: RouteCandidate) -> bool {
    key_before(a.movement_cost as int, a.route@, b.movement_cost as int, b.route@)
}

proof fn lemma_rank_order(a: RouteCandidate, b: RouteCandidate, c: RouteCandidate)
    ensures
        !ranks_before(a, a),
        ranks_before(a, b) ==> !ranks_before(b, a),
        ranks_before(a, b) && ranks_before(b, c) ==> ranks_before(a, c),
        !ranks_before(a, b) && !ranks_before(b, a) ==> a.movement_cost == b.movement_cost
            && a.route@ == b.route@,
{
    lemma_key_order(
        a.movement_cost as int,
        a.route@,
        b.movement_cost as int,
        b.route@,
        c.movement_cost as int,
        c.route@,
    );
}

/// The first candidate of least rank: least cost, then the row-major first
/// route.
fn cheapest(frontier: &Vec<RouteCandidate>) -> (m: usize)
    requires
        frontier@.len() > 0,
    ensures
        m < frontier@.len(),
        forall|i: int| 0 <= i < frontier@.len() ==> !ranks_before(#[trigger] frontier@[i], frontier@[m as int]),
        forall|i: int| 0 <= i < m ==> ranks_before(frontier@[m as int], #[trigger] frontier@[i]),
{
    let mut m: usize = 0;
    let mut i: usize = 1;
    proof {
        lemma_rank_order(frontier@[0], frontier@[0], frontier@[0]);
    }
    while i < frontier.len()
        invariant
            m < i <= frontier@.len(),
            forall|j: int| 0 <= j < i ==> !ranks_before(#[trigger] frontier@[j], frontier@[m as int]),
            forall|j: int| 0 <= j < m ==> ranks_before(frontier@[m as int], #[trigger] frontier@[j]),
        decreases frontier.len() - i,
    {
        if rank_before(
            frontier[i].movement_cost,
            &frontier[i].route,
            frontier[m].movement_cost,
            &frontier[m].route,
        ) {
            proof {
                let fi = frontier@[i as int];
                let fm = frontier@[m as int];
                assert forall|j: int| 0 <= j < i implies ranks_before(fi, #[trigger] frontier@[j]) by {
                    let fj = frontier@[j];
                    lemma_rank_order(fi, fm, fj);
                    lemma_rank_order(fj, fm, fi);
                    lemma_rank_order(fm, fj, fi);
                }
                assert forall|j: int| 0 <= j < i + 1 implies !ranks_before(#[trigger] frontier@[j], fi) by {
                    lemma_rank_order(fi, frontier@[j], fi);
                }
            }
            m = i;
        }
        i = i + 1;
    }
    m
}

proof fn lemma_route_extends(
    board: &RpgBoardSetup,
    entities: Seq<RpgEntityState>,
    actor_id: Seq<char>,
    origin: GridPosition,
    route: Seq<GridPosition>,
    ids: Seq<Seq<char>>,
    p: GridPosition,
    id: Seq<char>,
)
    requires
        movement_route(board, entities, actor_id, origin, route, ids),
        board_step(board, route_end(origin, route), p),
        !occupied_by_other(entities, actor_id, p),
        last_cell_index(board.cells@, p) >= 0,
        entry_cost(board.cells@, p) > 0,
        id == board.cells@[last_cell_index(board.cells@, p)].id@,
    ensures
        movement_route(board, entities, actor_id, origin, route.push(p), ids.push(id)),
        route_cost(board.cells@, route.push(p)) == sat_u32(
            route_cost(board.cells@, route) + entry_cost(board.cells@, p),
        ),
{
    assert(route.push(p).drop_last() =~= route);
    assert(ids.push(id).drop_last() =~= ids);
    if route.len() > 0 {
        assert(route.push(p)[route.len() - 1] == route.last());
    }
    assert(movement_route(board, entities, actor_id, origin, route, ids) ==> ids.len()
        == route.len()) by {
        lemma_route_ids_len(board, entities, actor_id, origin, route, ids);
    }
}

proof fn lemma_route_ids_len(
    board: &RpgBoardSetup,
    entities: Seq<RpgEntityState>,
    actor_id: Seq<char>,
    origin: GridPosition,
    route: Seq<GridPosition>,
    ids: Seq<Seq<char>>,
)
    requires
        movement_route(board, entities, actor_id, origin, route, ids),
    ensures
        ids.len() == route.len(),
{
}

proof fn lemma_allowed(cells: Seq<RpgCellSetup>, origin: GridPosition, p: GridPosition)
    requires
        p == origin || last_cell_index(cells, p) >= 0,
    ensures
        allowed_positions(cells, origin).contains(p),
{
    let s = cells.map_values(|c: RpgCellSetup| c.position).push(origin);
    if p == origin {
        assert(s[s.len() - 1] == p);
    } else {
        crate::board::lemma_last_cell_index(cells, p);
        let i = last_cell_index(cells, p);
        assert(s[i] == p);
    }
}

proof fn lemma_done_bound(done: Seq<GridPosition>, cells: Seq<RpgCellSetup>, origin: GridPosition)
    requires
        done.no_duplicates(),
        forall|j: int| 0 <= j < done.len() ==> allowed_positions(cells, origin).contains(#[trigger] done[j]),
    ensures
        done.len() <= cells.len() + 1,
{
    let all = cells.map_values(|c: RpgCellSetup| c.position).push(origin);
    done.unique_seq_to_set();
    all.lemma_cardinality_of_set();
    assert(done.to_set().subset_of(all.to_set()));
    vstd::set_lib::lemma_len_subset(done.to_set(), all.to_set());
}

/// One step from `u` onto an enterable board cell at `v` that no
/// other participant occupies.
pub open spec fn step_ok(
    board: &RpgBoardSetup,
    entities: Seq<RpgEntityState>,
    actor_id: Seq<char>,
    u: GridPosition,
    v: GridPosition,
) -> bool {
    &&& board_step(board, u, v)
    &&& !occupied_by_other(entities, actor_id, v)
    &&& last_cell_index(board.cells@, v) >= 0
    &&& entry_cost(board.cells@, v) > 0
}

/// Some movement route from `origin` ends at `p` within the budget.
pub open spec fn reachable(
    board: &RpgBoardSetup,
    entities: Seq<RpgEntityState>,
    actor_id: Seq<char>,
    maximum_distance: u32,
    origin: GridPosition,
    p: GridPosition,
) -> bool {
    exists|route: Seq<GridPosition>, ids: Seq<Seq<char>>|
        #[trigger] movement_route(board, entities, actor_id, origin, route, ids) && route_cost(
            board.cells@,
            route,
        ) <= maximum_distance && route_end(origin, route) == p
}

/// `view` follows a movement route from `origin` to `p` within the budget,
/// no route from `origin` to `p` within the budget costs less, and (below
/// the saturation bound of the cost) every other route of the same cost
/// comes later in row-major order.
pub open spec fn cheapest_path(
    board: &RpgBoardSetup,
    entities: Seq<RpgEntityState>,
    actor_id: Seq<char>,
    maximum_distance: u32,
    origin: GridPosition,
    p: GridPosition,
    view: RpgCellPathView,
) -> bool {
    &&& exists|route: Seq<GridPosition>|
        #[trigger] movement_route(board, entities, actor_id, origin, route, texts(view.cell_ids@))
            && route.len() > 0 && route.last() == p && view.movement_cost as int == route_cost(
            board.cells@,
            route,
        ) && view.movement_cost <= maximum_distance && (view.movement_cost < u32::MAX ==> forall|
            other: Seq<GridPosition>,
            other_ids: Seq<Seq<char>>,
        |
            #[trigger] movement_route(board, entities, actor_id, origin, other, other_ids)
                && route_end(origin, other) == p && route_cost(board.cells@, other)
                == view.movement_cost ==> other == route || route_lt(route, other))
    &&& forall|route: Seq<GridPosition>, ids: Seq<Seq<char>>|
        #[trigger] movement_route(board, entities, actor_id, origin, route, ids) && route_cost(
            board.cells@,
            route,
        ) <= maximum_distance && route_end(origin, route) == p ==> view.movement_cost
            <= route_cost(board.cells@, route)
}

/// The indices, in board order, of the first `n` board cells that stand
/// elsewhere than `origin` and that a route reaches within the budget.
pub open spec fn destination_cells(
    board: &RpgBoardSetup,
    entities: Seq<RpgEntityState>,
    actor_id: Seq<char>,
    maximum_distance: u32,
    origin: GridPosition,
    n: int,
) -> Seq<int>
    decreases n,
{
    if n <= 0 {
        Seq::empty()
    } else {
        let prior = destination_cells(board, entities, actor_id, maximum_distance, origin, n - 1);
        let p = board.cells@[n - 1].position;
        if p != origin && reachable(board, entities, actor_id, maximum_distance, origin, p) {
            prior.push(n - 1)
        } else {
            prior
        }
    }
}

/// What `movement_paths` reports: nothing for an unknown actor; otherwise,
/// in board order, one cheapest path to each board cell other than the
/// actor's position that a route reaches within the budget.
pub open spec fn movement_paths_match(
    board: &RpgBoardSetup,
    entities: Seq<RpgEntityState>,
    actor_id: Seq<char>,
    maximum_distance: u32,
    paths: Seq<RpgCellPathView>,
) -> bool {
    &&& entity_index(entities, actor_id) < 0 ==> paths.len() == 0
    &&& entity_index(entities, actor_id) >= 0 ==> {
        let origin = entities[entity_index(entities, actor_id)].position;
        let dest = destination_cells(
            board,
            entities,
            actor_id,
            maximum_distance,
            origin,
            board.cells@.len() as int,
        );
        &&& paths.len() == dest.len()
        &&& forall|r: int|
            0 <= r < paths.len() ==> (#[trigger] paths[r]).destination_cell_id@
                == board.cells@[dest[r]].id@ && cheapest_path(
                board,
                entities,
                actor_id,
                maximum_distance,
                origin,
                board.cells@[dest[r]].position,
                paths[r],
            )
    }
}

/// Some best route to `p` comes no later than `(c, r)`.
spec fn has_best(best: Seq<RouteCandidate>, p: GridPosition, c: int, r: Seq<GridPosition>) -> bool {
    exists|k: int|
        0 <= k < best.len() && (#[trigger] best[k]).position == p && !key_before(
            c,
            r,
            best[k].movement_cost as int,
            best[k].route@,
        )
}

/// Some best route to `p` costs no more than `c`.
spec fn has_best_cost(best: Seq<RouteCandidate>, p: GridPosition, c: int) -> bool {
    exists|k: int| 0 <= k < best.len() && (#[trigger] best[k]).position == p && best[k].movement_cost <= c
}

spec fn best_grows(old: Seq<RouteCandidate>, new: Seq<RouteCandidate>) -> bool {
    forall|p: GridPosition, c: int, r: Seq<GridPosition>|
        #[trigger] has_best(old, p, c, r) ==> has_best(new, p, c, r)
}

/// Every enterable neighbour of `u` within the budget from `(c, r)` has a
/// best route no later than that step.
spec fn relaxed(
    board: &RpgBoardSetup,
    entities: Seq<RpgEntityState>,
    actor_id: Seq<char>,
    maximum_distance: u32,
    best: Seq<RouteCandidate>,
    u: GridPosition,
    c: int,
    r: Seq<GridPosition>,
) -> bool {
    forall|v: GridPosition|
        #[trigger] step_ok(board, entities, actor_id, u, v) && sat_u32(
            c + entry_cost(board.cells@, v),
        ) <= maximum_distance ==> has_best(best, v, sat_u32(c + entry_cost(board.cells@, v)), r.push(v))
}

spec fn queued(frontier: Seq<RouteCandidate>, x: RouteCandidate) -> bool {
    exists|j: int|
        0 <= j < frontier.len() && (#[trigger] frontier[j]).position == x.position
            && frontier[j].movement_cost == x.movement_cost && frontier[j].route@ == x.route@
}

/// Settled positions have relaxed all their neighbours.
spec fn settled_relaxed(
    board: &RpgBoardSetup,
    entities: Seq<RpgEntityState>,
    actor_id: Seq<char>,
    maximum_distance: u32,
    best: Seq<RouteCandidate>,
    done: Seq<GridPosition>,
    count: int,
) -> bool {
    forall|d: int, k: int|
        #![trigger done[d], best[k]]
        0 <= d < count && 0 <= k < best.len() && best[k].position == done[d] ==> relaxed(
            board,
            entities,
            actor_id,
            maximum_distance,
            best,
            done[d],
            best[k].movement_cost as int,
            best[k].route@,
        )
}

proof fn lemma_has_best_weaken(
    best: Seq<RouteCandidate>,
    p: GridPosition,
    c: int,
    r: Seq<GridPosition>,
    d: int,
    q: Seq<GridPosition>,
)
    requires
        has_best(best, p, c, r),
        !key_before(d, q, c, r),
    ensures
        has_best(best, p, d, q),
{
    let k = choose|k: int|
        0 <= k < best.len() && (#[trigger] best[k]).position == p && !key_before(
            c,
            r,
            best[k].movement_cost as int,
            best[k].route@,
        );
    lemma_key_order(best[k].movement_cost as int, best[k].route@, c, r, d, q);
    assert(best[k].position == p);
}

proof fn lemma_has_best_cost(best: Seq<RouteCandidate>, p: GridPosition, c: int, r: Seq<GridPosition>)
    requires
        has_best(best, p, c, r),
    ensures
        has_best_cost(best, p, c),
{
    let k = choose|k: int|
        0 <= k < best.len() && (#[trigger] best[k]).position == p && !key_before(
            c,
            r,
            best[k].movement_cost as int,
            best[k].route@,
        );
    assert(best[k].position == p);
}

proof fn lemma_best_set(old: Seq<RouteCandidate>, k: int, x: RouteCandidate)
    requires
        0 <= k < old.len(),
        x.position == old[k].position,
        !key_before(old[k].movement_cost as int, old[k].route@, x.movement_cost as int, x.route@),
    ensures
        best_grows(old, old.update(k, x)),
{
    let new = old.update(k, x);
    assert forall|p: GridPosition, c: int, r: Seq<GridPosition>|
        #[trigger] has_best(old, p, c, r) implies has_best(new, p, c, r) by {
        let i = choose|i: int|
            0 <= i < old.len() && (#[trigger] old[i]).position == p && !key_before(
                c,
                r,
                old[i].movement_cost as int,
                old[i].route@,
            );
        if i == k {
            assert(new[k] == x);
            lemma_key_order(x.movement_cost as int, x.route@, old[k].movement_cost as int, old[k].route@, c, r);
        } else {
            assert(new[i] == old[i]);
        }
    }
}

proof fn lemma_best_push(old: Seq<RouteCandidate>, x: RouteCandidate)
    ensures
        best_grows(old, old.push(x)),
{
    let new = old.push(x);
    assert forall|p: GridPosition, c: int, r: Seq<GridPosition>|
        #[trigger] has_best(old, p, c, r) implies has_best(new, p, c, r) by {
        let i = choose|i: int|
            0 <= i < old.len() && (#[trigger] old[i]).position == p && !key_before(
                c,
                r,
                old[i].movement_cost as int,
                old[i].route@,
            );
        assert(new[i] == old[i]);
    }
}

proof fn lemma_relaxed_grows(
    board: &RpgBoardSetup,
    entities: Seq<RpgEntityState>,
    actor_id: Seq<char>,
    maximum_distance: u32,
    old: Seq<RouteCandidate>,
    new: Seq<RouteCandidate>,
    u: GridPosition,
    c: int,
    r: Seq<GridPosition>,
)
    requires
        best_grows(old, new),
        relaxed(board, entities, actor_id, maximum_distance, old, u, c, r),
    ensures
        relaxed(board, entities, actor_id, maximum_distance, new, u, c, r),
{
    assert forall|v: GridPosition|
        #[trigger] step_ok(board, entities, actor_id, u, v) && sat_u32(
            c + entry_cost(board.cells@, v),
        ) <= maximum_distance implies has_best(
        new,
        v,
        sat_u32(c + entry_cost(board.cells@, v)),
        r.push(v),
    ) by {
        assert(has_best(old, v, sat_u32(c + entry_cost(board.cells@, v)), r.push(v)));
    }
}

/// A step never comes before the route it extends.
proof fn lemma_step_after(c: int, r: Seq<GridPosition>, e: int, v: GridPosition)
    requires
        0 <= c <= u32::MAX,
        e >= 0,
    ensures
        key_before(c, r, sat_u32(c + e), r.push(v)),
        !key_before(sat_u32(c + e), r.push(v), c, r),
{
    lemma_route_lt_push(r, v);
    lemma_key_order(c, r, sat_u32(c + e), r.push(v), c, r);
}

/// Along a route cheaper than the saturation bound, every proper prefix is
/// strictly cheaper.
proof fn lemma_prefix_cheaper(
    board: &RpgBoardSetup,
    entities: Seq<RpgEntityState>,
    actor_id: Seq<char>,
    origin: GridPosition,
    route: Seq<GridPosition>,
    ids: Seq<Seq<char>>,
    i: int,
)
    requires
        movement_route(board, entities, actor_id, origin, route, ids),
        route_cost(board.cells@, route) < u32::MAX,
        0 <= i < route.len(),
    ensures
        route_cost(board.cells@, route.take(i)) < route_cost(board.cells@, route),
    decreases route.len(),
{
    let cells = board.cells@;
    let prior = route.drop_last();
    assert(route_cost(cells, route) == sat_u32(route_cost(cells, prior) + entry_cost(cells, route.last())));
    assert(entry_cost(cells, route.last()) > 0);
    assert(route_cost(cells, prior) >= 0) by {
        lemma_route_cost_bounds(cells, prior);
    }
    if i == route.len() - 1 {
        assert(route.take(i) =~= prior);
    } else {
        lemma_prefix_cheaper(board, entities, actor_id, origin, prior, ids.drop_last(), i);
        assert(route.take(i) =~= prior.take(i));
    }
}

proof fn lemma_route_cost_bounds(cells: Seq<RpgCellSetup>, route: Seq<GridPosition>)
    ensures
        0 <= route_cost(cells, route) <= u32::MAX,
    decreases route.len(),
{
    if route.len() > 0 {
        lemma_route_cost_bounds(cells, route.drop_last());
        lemma_entry_cost_nonnegative(cells, route.last());
    }
}

proof fn lemma_entry_cost_nonnegative(cells: Seq<RpgCellSetup>, p: GridPosition)
    ensures
        entry_cost(cells, p) >= 0,
{
}

/// Once every best route is settled and every settled position relaxed,
/// every route within the budget ends at a position whose best route is no
/// dearer, and, below the saturation bound, comes no later.
proof fn lemma_routes_meet_best(
    board: &RpgBoardSetup,
    entities: Seq<RpgEntityState>,
    actor_id: Seq<char>,
    maximum_distance: u32,
    origin: GridPosition,
    best: Seq<RouteCandidate>,
    done: Seq<GridPosition>,
    route: Seq<GridPosition>,
    ids: Seq<Seq<char>>,
)
    requires
        forall|k: int| 0 <= k < best.len() ==> done.contains(#[trigger] best[k].position),
        forall|k: int|
            0 <= k < best.len() ==> (#[trigger] best[k]).movement_cost as int == route_cost(
                board.cells@,
                best[k].route@,
            ),
        has_best(best, origin, 0, Seq::empty()),
        settled_relaxed(board, entities, actor_id, maximum_distance, best, done, done.len() as int),
        movement_route(board, entities, actor_id, origin, route, ids),
        route_cost(board.cells@, route) <= maximum_distance,
    ensures
        has_best_cost(best, route_end(origin, route), route_cost(board.cells@, route)),
        route_cost(board.cells@, route) < u32::MAX ==> has_best(
            best,
            route_end(origin, route),
            route_cost(board.cells@, route),
            route,
        ),
    decreases route.len(),
{
    let cells = board.cells@;
    if route.len() == 0 {
        assert(route =~= Seq::<GridPosition>::empty());
        lemma_has_best_cost(best, origin, 0, Seq::empty());
    } else {
        let n = route.len();
        let prior = route.drop_last();
        let v = route.last();
        lemma_entry_cost_nonnegative(cells, v);
        lemma_route_cost_bounds(cells, prior);
        let e = entry_cost(cells, v);
        let cp = route_cost(cells, prior);
        assert(route_cost(cells, route) == sat_u32(cp + e));
        lemma_routes_meet_best(
            board,
            entities,
            actor_id,
            maximum_distance,
            origin,
            best,
            done,
            prior,
            ids.drop_last(),
        );
        let u = route_end(origin, prior);
        if n > 1 {
            assert(route[n - 2] == prior.last());
        }
        assert(step_ok(board, entities, actor_id, u, v));
        assert(prior.push(v) =~= route);
        let k = choose|k: int|
            0 <= k < best.len() && (#[trigger] best[k]).position == u && best[k].movement_cost <= cp;
        assert(done.contains(best[k].position));
        let d = choose|d: int| 0 <= d < done.len() && done[d] == u;
        assert(best[k].position == done[d]);
        let ck = best[k].movement_cost as int;
        assert(relaxed(board, entities, actor_id, maximum_distance, best, done[d], ck, best[k].route@));
        assert(sat_u32(ck + e) <= route_cost(cells, route));
        assert(has_best(best, v, sat_u32(ck + e), best[k].route@.push(v)));
        lemma_has_best_cost(best, v, sat_u32(ck + e), best[k].route@.push(v));
        let kc = choose|kc: int|
            0 <= kc < best.len() && (#[trigger] best[kc]).position == v && best[kc].movement_cost
                <= sat_u32(ck + e);
        assert(best[kc].position == v);
        if route_cost(cells, route) < u32::MAX {
            assert(cp < u32::MAX);
            let j = choose|j: int|
                0 <= j < best.len() && (#[trigger] best[j]).position == u && !key_before(
                    cp,
                    prior,
                    best[j].movement_cost as int,
                    best[j].route@,
                );
            let cj = best[j].movement_cost as int;
            let rj = best[j].route@;
            assert(done.contains(best[j].position));
            let dj = choose|dj: int| 0 <= dj < done.len() && done[dj] == u;
            assert(best[j].position == done[dj]);
            assert(relaxed(board, entities, actor_id, maximum_distance, best, done[dj], cj, rj));
            lemma_key_order(cj, rj, cp, prior, cp, prior);
            if cj < cp {
                assert(sat_u32(cj + e) == cj + e);
            } else if rj != prior {
                assert(route_lt(rj, prior));
                if rj.len() < prior.len() && prior.take(rj.len() as int) == rj {
                    lemma_prefix_cheaper(
                        board,
                        entities,
                        actor_id,
                        origin,
                        prior,
                        ids.drop_last(),
                        rj.len() as int,
                    );
                    assert(false);
                }
                lemma_route_lt_extend(rj, prior, v, v);
            }
            assert(sat_u32(cj + e) <= route_cost(cells, route));
            assert(has_best(best, v, sat_u32(cj + e), rj.push(v)));
            lemma_key_order(route_cost(cells, route), route, sat_u32(cj + e), rj.push(v), cp, prior);
            assert(!key_before(route_cost(cells, route), route, sat_u32(cj + e), rj.push(v)));
            lemma_has_best_weaken(best, v, sat_u32(cj + e), rj.push(v), route_cost(cells, route), route);
        }
    }
}

/// Every board cell other than the actor's own position that a movement
/// route reaches within `maximum_distance`, in board order, with the cheapest
/// route found (ties broken by the row-major order of the cells entered).
pub fn movement_paths(
    board: &RpgBoardSetup,
    entities: &Vec<RpgEntityState>,
    actor_id: &String,
    maximum_distance: u32,
) -> (paths: Vec<RpgCellPathView>)
    ensures
        movement_paths_match(board, entities@, actor_id@, maximum_distance, paths@),
        entity_index(entities@, actor_id@) < 0 ==> paths@.len() == 0,
        entity_index(entities@, actor_id@) >= 0 ==> {
            let origin = entities@[entity_index(entities@, actor_id@)].position;
            let dest = destination_cells(
                board,
                entities@,
                actor_id@,
                maximum_distance,
                origin,
                board.cells@.len() as int,
            );
            &&& paths@.len() == dest.len()
            &&& forall|r: int|
                0 <= r < paths@.len() ==> (#[trigger] paths@[r]).destination_cell_id@
                    == board.cells@[dest[r]].id@ && cheapest_path(
                    board,
                    entities@,
                    actor_id@,
                    maximum_distance,
                    origin,
                    board.cells@[dest[r]].position,
                    paths@[r],
                )
        },
        forall|r: int|
            0 <= r < paths@.len() ==> path_sound(
                board,
                entities@,
                actor_id@,
                maximum_distance,
                #[trigger] paths@[r],
            ),
{
    let actor_index = match find_entity(entities, actor_id) {
        None => {
            return Vec::new();
        },
        Some(i) => i,
    };
    let origin = entities[actor_index].position;
    let ghost ents = entities@;
    let ghost actor = actor_id@;
    let ghost cells = board.cells@;
    let mut best: Vec<RouteCandidate> = Vec::new();
    best.push(
        RouteCandidate {
            movement_cost: 0,
            route: Vec::new(),
            position: origin,
            cell_ids: Vec::new(),
        },
    );
    let mut frontier: Vec<RouteCandidate> = Vec::new();
    frontier.push(
        RouteCandidate {
            movement_cost: 0,
            route: Vec::new(),
            position: origin,
            cell_ids: Vec::new(),
        },
    );
    let mut done: Vec<GridPosition> = Vec::new();
    proof {
        assert(texts(Seq::<String>::empty()) =~= Seq::<Seq<char>>::empty());
        assert(candidate_ok(board, ents, actor, origin, maximum_distance, best@[0]));
        assert(candidate_ok(board, ents, actor, origin, maximum_distance, frontier@[0]));
        assert(best@[0].position == origin);
        assert(has_best(best@, origin, 0, Seq::empty()));
        assert(has_best(best@, frontier@[0].position, frontier@[0].movement_cost as int, frontier@[0].route@));
        assert(frontier@[0].route@ == best@[0].route@);
        assert(queued(frontier@, best@[0]));
    }
    while frontier.len() > 0
        invariant
            ents == entities@,
            actor == actor_id@,
            cells == board.cells@,
            forall|j: int|
                0 <= j < best@.len() ==> candidate_ok(
                    board,
                    ents,
                    actor,
                    origin,
                    maximum_distance,
                    #[trigger] best@[j],
                ),
            forall|j: int|
                0 <= j < frontier@.len() ==> candidate_ok(
                    board,
                    ents,
                    actor,
                    origin,
                    maximum_distance,
                    #[trigger] frontier@[j],
                ),
            done@.no_duplicates(),
            forall|j: int|
                0 <= j < done@.len() ==> allowed_positions(cells, origin).contains(#[trigger] done@[j]),
            done@.len() <= cells.len() + 1,
            forall|i: int, j: int|
                0 <= i < best@.len() && 0 <= j < best@.len() && i != j ==> (#[trigger] best@[i]).position
                    != (#[trigger] best@[j]).position,
            has_best(best@, origin, 0, Seq::empty()),
            forall|k: int|
                0 <= k < best@.len() && !done@.contains(#[trigger] best@[k].position) ==> queued(
                    frontier@,
                    best@[k],
                ),
            forall|j: int|
                0 <= j < frontier@.len() ==> has_best(
                    best@,
                    (#[trigger] frontier@[j]).position,
                    frontier@[j].movement_cost as int, frontier@[j].route@,
                ),
            forall|d: int, j: int|
                0 <= d < done@.len() && 0 <= j < frontier@.len() ==> has_best(
                    best@,
                    #[trigger] done@[d],
                    (#[trigger] frontier@[j]).movement_cost as int, frontier@[j].route@,
                ),
            settled_relaxed(board, ents, actor, maximum_distance, best@, done@, done@.len() as int),
        decreases cells.len() + 1 - done@.len(), frontier@.len(),
    {
        let m = cheapest(&frontier);
        let ghost frontier_old = frontier@;
        let candidate = frontier.remove(m);
        proof {
            assert(candidate == frontier_old[m as int]);
            assert(candidate_ok(board, ents, actor, origin, maximum_distance, candidate));
            assert forall|j: int| 0 <= j < frontier@.len() implies {
                &&& candidate_ok(board, ents, actor, origin, maximum_distance, #[trigger] frontier@[j])
                &&& has_best(best@, frontier@[j].position, frontier@[j].movement_cost as int, frontier@[j].route@)
                &&& frontier@[j].movement_cost >= candidate.movement_cost
            } by {
                let jj = if j < m { j } else { j + 1 };
                assert(frontier@[j] == frontier_old[jj]);
                assert(!ranks_before(frontier_old[jj], frontier_old[m as int]));
            }
            assert forall|d: int, j: int|
                0 <= d < done@.len() && 0 <= j < frontier@.len() implies has_best(
                    best@,
                    #[trigger] done@[d],
                    (#[trigger] frontier@[j]).movement_cost as int, frontier@[j].route@,
                ) by {
                let jj = if j < m { j } else { j + 1 };
                assert(frontier@[j] == frontier_old[jj]);
            }
            assert(has_best(best@, candidate.position, candidate.movement_cost as int, candidate.route@));
            assert forall|d: int| 0 <= d < done@.len() implies has_best(
                best@,
                #[trigger] done@[d],
                candidate.movement_cost as int, candidate.route@,
            ) by {
                assert(has_best(best@, done@[d], frontier_old[m as int].movement_cost as int, frontier_old[m as int].route@));
            }
        }
        if position_listed(&done, candidate.position) {
            proof {
                assert forall|k: int|
                    0 <= k < best@.len() && !done@.contains(#[trigger] best@[k].position) implies queued(
                    frontier@,
                    best@[k],
                ) by {
                    assert(queued(frontier_old, best@[k]));
                    let j = choose|j: int|
                        0 <= j < frontier_old.len() && (#[trigger] frontier_old[j]).position
                            == best@[k].position && frontier_old[j].movement_cost
                            == best@[k].movement_cost && frontier_old[j].route@ == best@[k].route@;
                    assert(j != m);
                    let jj = if j < m { j } else { j - 1 };
                    assert(frontier@[jj] == frontier_old[j]);
                }
            }
            continue;
        }
        let known = match find_route_for(&best, candidate.position) {
            None => {
                proof {
                    let kk = choose|kk: int| 0 <= kk < best@.len() && (#[trigger] best@[kk]).position == candidate.position && best@[kk].movement_cost <= candidate.movement_cost;
                    assert(best@[kk].position != candidate.position);
                }
                continue;
            },
            Some(i) => i,
        };
        proof {
            let kk = choose|kk: int| 0 <= kk < best@.len() && (#[trigger] best@[kk]).position == candidate.position && best@[kk].movement_cost <= candidate.movement_cost;
            assert(kk == known);
            lemma_rank_order(best@[known as int], candidate, candidate);
        }
        if rank_before(
            best[known].movement_cost,
            &best[known].route,
            candidate.movement_cost,
            &candidate.route,
        ) {
            proof {
                assert forall|k: int|
                    0 <= k < best@.len() && !done@.contains(#[trigger] best@[k].position) implies queued(
                    frontier@,
                    best@[k],
                ) by {
                    assert(queued(frontier_old, best@[k]));
                    let j = choose|j: int|
                        0 <= j < frontier_old.len() && (#[trigger] frontier_old[j]).position
                            == best@[k].position && frontier_old[j].movement_cost
                            == best@[k].movement_cost && frontier_old[j].route@ == best@[k].route@;
                    if j == m {
                        assert(k == known);
                        lemma_rank_order(best@[known as int], candidate, candidate);
                    }
                    let jj = if j < m { j } else { j - 1 };
                    assert(frontier@[jj] == frontier_old[j]);
                }
            }
            continue;
        }
        let ghost c_u = candidate.movement_cost as int;
        let ghost r_u = candidate.route@;
        let ghost u = candidate.position;
        proof {
            assert(best@[known as int].movement_cost == candidate.movement_cost);
            let r = candidate.route@;
            if r.len() > 0 {
                let n = r.len();
                assert(last_cell_index(cells, r[n - 1]) >= 0);
            }
            lemma_allowed(cells, origin, candidate.position);
        }
        let ghost done_before = done@;
        done.push(candidate.position);
        proof {
            assert forall|a: int, b: int|
                0 <= a < done@.len() && 0 <= b < done@.len() && a != b implies done@[a]
                != done@[b] by {
                if a < done_before.len() && b < done_before.len() {
                    assert(done@[a] == done_before[a]);
                    assert(done@[b] == done_before[b]);
                } else if a == done_before.len() {
                    assert(done_before[b] == done@[b]);
                } else {
                    assert(done_before[a] == done@[a]);
                }
            }
            assert forall|j: int| 0 <= j < done@.len() implies allowed_positions(
                cells,
                origin,
            ).contains(#[trigger] done@[j]) by {
                if j < done_before.len() {
                    assert(done@[j] == done_before[j]);
                }
            }
            lemma_done_bound(done@, cells, origin);
            assert forall|k: int|
                0 <= k < best@.len() && !done@.contains(#[trigger] best@[k].position) implies queued(
                frontier@,
                best@[k],
            ) by {
                assert(!done_before.contains(best@[k].position)) by {
                    if done_before.contains(best@[k].position) {
                        let w = choose|w: int| 0 <= w < done_before.len() && done_before[w] == best@[k].position;
                        assert(done@[w] == done_before[w]);
                    }
                }
                assert(queued(frontier_old, best@[k]));
                let j = choose|j: int|
                    0 <= j < frontier_old.len() && (#[trigger] frontier_old[j]).position
                        == best@[k].position && frontier_old[j].movement_cost
                        == best@[k].movement_cost && frontier_old[j].route@ == best@[k].route@;
                assert(done@[done@.len() - 1] == u);
                assert(j != m);
                let jj = if j < m { j } else { j - 1 };
                assert(frontier@[jj] == frontier_old[j]);
            }
            assert forall|d: int, j: int|
                0 <= d < done@.len() && 0 <= j < frontier@.len() implies has_best(
                best@,
                #[trigger] done@[d],
                (#[trigger] frontier@[j]).movement_cost as int, frontier@[j].route@,
            ) by {
                if d < done_before.len() {
                    assert(done@[d] == done_before[d]);
                } else {
                    assert(best@[known as int].position == done@[d]);
                }
            }
            assert forall|d: int| 0 <= d < done@.len() implies has_best(
                best@,
                #[trigger] done@[d],
                c_u, r_u,
            ) by {
                if d < done_before.len() {
                    assert(done@[d] == done_before[d]);
                } else {
                    assert(best@[known as int].position == done@[d]);
                }
            }
            assert forall|d: int, k: int|
                #![trigger done@[d], best@[k]]
                0 <= d < done@.len() - 1 && 0 <= k < best@.len() && best@[k].position == done@[d]
                    implies relaxed(board, ents, actor, maximum_distance, best@, done@[d], best@[k].movement_cost as int, best@[k].route@) by {
                assert(done@[d] == done_before[d]);
                assert(done_before[d] == done_before[d]);
            }
        }
        let x = candidate.position.x;
        let y = candidate.position.y;
        let mut neighbours: Vec<GridPosition> = Vec::new();
        if y > 0 {
            neighbours.push(GridPosition { x, y: y - 1 });
        }
        if x > 0 {
            neighbours.push(GridPosition { x: x - 1, y });
        }
        if (x as u64) + 1 < board.width as u64 {
            neighbours.push(GridPosition { x: x + 1, y });
        }
        if (y as u64) + 1 < board.height as u64 {
            neighbours.push(GridPosition { x, y: y + 1 });
        }
        proof {
            assert forall|v: GridPosition|
                board_step(board, u, v) implies neighbours@.contains(v) by {
                if v.x == x && v.y + 1 == y {
                    assert(neighbours@[0] == v);
                } else if v.y == y && v.x + 1 == x {
                    let i = if y > 0 { 1int } else { 0int };
                    assert(neighbours@[i] == v);
                } else if v.y == y && x + 1 == v.x {
                    let i = (if y > 0 { 1int } else { 0int }) + (if x > 0 { 1int } else { 0int });
                    assert(neighbours@[i] == v);
                } else {
                    let i = (if y > 0 { 1int } else { 0int }) + (if x > 0 { 1int } else { 0int }) + (if (x as u64) + 1 < board.width as u64 { 1int } else { 0int });
                    assert(neighbours@[i] == v);
                }
            }
        }
        let mut n: usize = 0;
        while n < neighbours.len()
            invariant
                ents == entities@,
                actor == actor_id@,
                cells == board.cells@,
                u == candidate.position,
                c_u == candidate.movement_cost as int,
                r_u == candidate.route@,
                candidate_ok(board, ents, actor, origin, maximum_distance, candidate),
                forall|j: int|
                    0 <= j < neighbours@.len() ==> board_step(
                        board,
                        candidate.position,
                        #[trigger] neighbours@[j],
                    ),
                forall|v: GridPosition| board_step(board, u, v) ==> neighbours@.contains(v),
                forall|j: int|
                    0 <= j < best@.len() ==> candidate_ok(
                        board,
                        ents,
                        actor,
                        origin,
                        maximum_distance,
                        #[trigger] best@[j],
                    ),
                forall|j: int|
                    0 <= j < frontier@.len() ==> candidate_ok(
                        board,
                        ents,
                        actor,
                        origin,
                        maximum_distance,
                        #[trigger] frontier@[j],
                    ),
                done@.len() >= 1,
                done@[done@.len() - 1] == u,
                forall|i: int, j: int|
                    0 <= i < best@.len() && 0 <= j < best@.len() && i != j ==> (#[trigger] best@[i]).position
                        != (#[trigger] best@[j]).position,
                has_best(best@, origin, 0, Seq::empty()),
                forall|k: int| 0 <= k < best@.len() && (#[trigger] best@[k]).position == u ==> best@[k].movement_cost == c_u && best@[k].route@ == r_u,
                forall|k: int|
                    0 <= k < best@.len() && !done@.contains(#[trigger] best@[k].position) ==> queued(
                        frontier@,
                        best@[k],
                    ),
                forall|j: int|
                    0 <= j < frontier@.len() ==> has_best(
                        best@,
                        (#[trigger] frontier@[j]).position,
                        frontier@[j].movement_cost as int, frontier@[j].route@,
                    ),
                forall|d: int, j: int|
                    0 <= d < done@.len() && 0 <= j < frontier@.len() ==> has_best(
                        best@,
                        #[trigger] done@[d],
                        (#[trigger] frontier@[j]).movement_cost as int, frontier@[j].route@,
                    ),
                forall|d: int| 0 <= d < done@.len() ==> has_best(best@, #[trigger] done@[d], c_u, r_u),
                settled_relaxed(board, ents, actor, maximum_distance, best@, done@, done@.len() - 1),
                forall|i: int|
                    0 <= i < n && step_ok(board, ents, actor, u, #[trigger] neighbours@[i]) && sat_u32(
                        c_u + entry_cost(cells, neighbours@[i]),
                    ) <= maximum_distance ==> has_best(
                        best@,
                        neighbours@[i],
                        sat_u32(c_u + entry_cost(cells, neighbours@[i])),
                        r_u.push(neighbours@[i]),
                    ),
                n <= neighbours@.len(),
            decreases neighbours.len() - n,
        {
            let neighbour = neighbours[n];
            let ghost i_n = n as int;
            n = n + 1;
            let ghost e_n = entry_cost(cells, neighbour);
            proof {
                lemma_entry_cost_nonnegative(cells, neighbour);
            }
            if position_listed(&done, neighbour) {
                proof {
                    let w = choose|w: int| 0 <= w < done@.len() && done@[w] == neighbour;
                    assert(has_best(best@, done@[w], c_u, r_u));
                    lemma_step_after(c_u, r_u, e_n, neighbour);
                    lemma_has_best_weaken(best@, neighbour, c_u, r_u, sat_u32(c_u + e_n), r_u.push(neighbour));
                    assert forall|i: int|
                        0 <= i < n && step_ok(board, ents, actor, u, #[trigger] neighbours@[i]) && sat_u32(
                            c_u + entry_cost(cells, neighbours@[i]),
                        ) <= maximum_distance implies has_best(
                            best@,
                            neighbours@[i],
                            sat_u32(c_u + entry_cost(cells, neighbours@[i])),
                            r_u.push(neighbours@[i]),
                        ) by {
                        if i == i_n {
                            assert(neighbours@[i] == neighbour);
                        }
                    }
                }
                continue;
            }
            if occupied_by_other_exec(entities, actor_id, neighbour) {
                proof {
                    assert forall|i: int|
                        0 <= i < n && step_ok(board, ents, actor, u, #[trigger] neighbours@[i]) && sat_u32(
                            c_u + entry_cost(cells, neighbours@[i]),
                        ) <= maximum_distance implies has_best(
                            best@,
                            neighbours@[i],
                            sat_u32(c_u + entry_cost(cells, neighbours@[i])),
                            r_u.push(neighbours@[i]),
                        ) by {
                        if i == i_n {
                            assert(neighbours@[i] == neighbour);
                        }
                    }
                }
                continue;
            }
            let cell_index = match last_cell_at(&board.cells, neighbour) {
                None => {
                    proof {
                        assert forall|i: int|
                            0 <= i < n && step_ok(board, ents, actor, u, #[trigger] neighbours@[i]) && sat_u32(
                                c_u + entry_cost(cells, neighbours@[i]),
                            ) <= maximum_distance implies has_best(
                                best@,
                                neighbours@[i],
                                sat_u32(c_u + entry_cost(cells, neighbours@[i])),
                                r_u.push(neighbours@[i]),
                            ) by {
                            if i == i_n {
                                assert(neighbours@[i] == neighbour);
                            }
                        }
                    }
                    continue;
                },
                Some(i) => i,
            };
            let cell = &board.cells[cell_index];
            let (passable, movement_cost) = cell_traversal(cell);
            proof {
                assert(e_n == if passable { movement_cost as int } else { 0 });
            }
            if !passable || movement_cost == 0 {
                proof {
                    assert forall|i: int|
                        0 <= i < n && step_ok(board, ents, actor, u, #[trigger] neighbours@[i]) && sat_u32(
                            c_u + entry_cost(cells, neighbours@[i]),
                        ) <= maximum_distance implies has_best(
                            best@,
                            neighbours@[i],
                            sat_u32(c_u + entry_cost(cells, neighbours@[i])),
                            r_u.push(neighbours@[i]),
                        ) by {
                        if i == i_n {
                            assert(neighbours@[i] == neighbour);
                        }
                    }
                }
                continue;
            }
            let next_cost = candidate.movement_cost.saturating_add(movement_cost);
            proof {
                assert(next_cost as int == sat_u32(c_u + e_n));
            }
            if next_cost > maximum_distance {
                proof {
                    assert forall|i: int|
                        0 <= i < n && step_ok(board, ents, actor, u, #[trigger] neighbours@[i]) && sat_u32(
                            c_u + entry_cost(cells, neighbours@[i]),
                        ) <= maximum_distance implies has_best(
                            best@,
                            neighbours@[i],
                            sat_u32(c_u + entry_cost(cells, neighbours@[i])),
                            r_u.push(neighbours@[i]),
                        ) by {
                        if i == i_n {
                            assert(neighbours@[i] == neighbour);
                        }
                    }
                }
                continue;
            }
            let mut next_route = copy_positions(&candidate.route);
            next_route.push(cell.position);
            let mut next_cell_ids = copy_texts(&candidate.cell_ids);
            next_cell_ids.push(cell.id.clone());
            proof {
                assert(texts(next_cell_ids@) =~= texts(candidate.cell_ids@).push(cell.id@));
                lemma_route_extends(
                    board,
                    ents,
                    actor,
                    origin,
                    candidate.route@,
                    texts(candidate.cell_ids@),
                    neighbour,
                    cell.id@,
                );
                assert(!done@.contains(neighbour));
                assert(neighbour != u);
            }
            let ghost best_before = best@;
            let ghost frontier_before = frontier@;
            let existing = find_route_for(&best, neighbour);
            match existing {
                Some(k) => {
                    if !rank_before(next_cost, &next_route, best[k].movement_cost, &best[k].route) {
                        proof {
                            assert(best@[k as int].movement_cost <= next_cost);
                            assert forall|i: int|
                                0 <= i < n && step_ok(board, ents, actor, u, #[trigger] neighbours@[i]) && sat_u32(
                                    c_u + entry_cost(cells, neighbours@[i]),
                                ) <= maximum_distance implies has_best(
                                    best@,
                                    neighbours@[i],
                                    sat_u32(c_u + entry_cost(cells, neighbours@[i])),
                                    r_u.push(neighbours@[i]),
                                ) by {
                                if i == i_n {
                                    assert(neighbours@[i] == neighbour);
                                    assert(best@[k as int].position == neighbour);
                                }
                            }
                        }
                        continue;
                    }
                    let replacement = RouteCandidate {
                        movement_cost: next_cost,
                        route: copy_positions(&next_route),
                        position: neighbour,
                        cell_ids: copy_texts(&next_cell_ids),
                    };
                    best.set(k, replacement);
                    proof {
                        lemma_key_order(
                            next_cost as int,
                            replacement.route@,
                            best_before[k as int].movement_cost as int,
                            best_before[k as int].route@,
                            0,
                            Seq::empty(),
                        );
                        lemma_best_set(best_before, k as int, replacement);
                        assert(best@ == best_before.update(k as int, replacement));
                        assert forall|j: int| 0 <= j < best@.len() implies candidate_ok(
                            board,
                            ents,
                            actor,
                            origin,
                            maximum_distance,
                            #[trigger] best@[j],
                        ) by {
                            if j != k {
                                assert(best@[j] == best_before[j]);
                            }
                        }
                    }
                },
                None => {
                    let entry = RouteCandidate {
                        movement_cost: next_cost,
                        route: copy_positions(&next_route),
                        position: neighbour,
                        cell_ids: copy_texts(&next_cell_ids),
                    };
                    best.push(entry);
                    proof {
                        lemma_best_push(best_before, entry);
                        assert forall|j: int| 0 <= j < best@.len() implies candidate_ok(
                            board,
                            ents,
                            actor,
                            origin,
                            maximum_distance,
                            #[trigger] best@[j],
                        ) by {
                            if j < best_before.len() {
                                assert(best@[j] == best_before[j]);
                            }
                        }
                    }
                },
            }
            let ghost kn: int = match existing {
                Some(k) => k as int,
                None => best_before.len() as int,
            };
            let pushed = RouteCandidate {
                movement_cost: next_cost,
                route: next_route,
                position: neighbour,
                cell_ids: next_cell_ids,
            };
            frontier.push(pushed);
            proof {
                assert(best_grows(best_before, best@));
                assert(best@[kn].position == neighbour);
                assert(best@[kn].movement_cost == next_cost);
                assert(best@[kn].route@ == pushed.route@);
                assert(forall|j: int| 0 <= j < best@.len() && j != kn ==> best@[j] == best_before[j]);
                lemma_key_order(next_cost as int, pushed.route@, 0, Seq::empty(), 0, Seq::empty());
                assert(has_best(best@, neighbour, next_cost as int, pushed.route@));
                assert forall|j: int| 0 <= j < frontier@.len() implies candidate_ok(
                    board,
                    ents,
                    actor,
                    origin,
                    maximum_distance,
                    #[trigger] frontier@[j],
                ) && has_best(best@, frontier@[j].position, frontier@[j].movement_cost as int, frontier@[j].route@) by {
                    if j < frontier_before.len() {
                        assert(frontier@[j] == frontier_before[j]);
                        assert(has_best(best_before, frontier_before[j].position, frontier_before[j].movement_cost as int, frontier_before[j].route@));
                    }
                }
                assert forall|i: int, j: int|
                    0 <= i < best@.len() && 0 <= j < best@.len() && i != j implies (#[trigger] best@[i]).position
                        != (#[trigger] best@[j]).position by {
                    if i != kn && j != kn {
                        assert(best@[i] == best_before[i]);
                        assert(best@[j] == best_before[j]);
                    } else if i == kn && j != kn {
                        assert(best@[j] == best_before[j]);
                        if existing is Some {
                            assert(best_before[kn].position == neighbour);
                        }
                    } else if j == kn && i != kn {
                        assert(best@[i] == best_before[i]);
                        if existing is Some {
                            assert(best_before[kn].position == neighbour);
                        }
                    }
                }
                assert(has_best(best_before, origin, 0, Seq::empty()));
                assert forall|k: int| 0 <= k < best@.len() && (#[trigger] best@[k]).position == u implies best@[k].movement_cost == c_u && best@[k].route@ == r_u by {
                    assert(k != kn);
                    assert(best@[k] == best_before[k]);
                }
                assert forall|k: int|
                    0 <= k < best@.len() && !done@.contains(#[trigger] best@[k].position) implies queued(
                    frontier@,
                    best@[k],
                ) by {
                    if k == kn {
                        assert(frontier@[frontier@.len() - 1] == pushed);
                    } else {
                        assert(best@[k] == best_before[k]);
                        assert(queued(frontier_before, best_before[k]));
                        let j = choose|j: int|
                            0 <= j < frontier_before.len() && (#[trigger] frontier_before[j]).position
                                == best_before[k].position && frontier_before[j].movement_cost
                                == best_before[k].movement_cost && frontier_before[j].route@ == best_before[k].route@;
                        assert(frontier@[j] == frontier_before[j]);
                    }
                }
                assert forall|d: int| 0 <= d < done@.len() implies has_best(best@, #[trigger] done@[d], c_u, r_u) by {
                    assert(has_best(best_before, done@[d], c_u, r_u));
                }
                assert forall|d: int, j: int|
                    0 <= d < done@.len() && 0 <= j < frontier@.len() implies has_best(
                        best@,
                        #[trigger] done@[d],
                        (#[trigger] frontier@[j]).movement_cost as int, frontier@[j].route@,
                    ) by {
                    if j < frontier_before.len() {
                        assert(frontier@[j] == frontier_before[j]);
                        assert(has_best(best_before, done@[d], frontier_before[j].movement_cost as int, frontier_before[j].route@));
                    } else {
                        assert(has_best(best_before, done@[d], c_u, r_u));
                        lemma_step_after(c_u, r_u, e_n, neighbour);
                        lemma_has_best_weaken(best@, done@[d], c_u, r_u, next_cost as int, pushed.route@);
                    }
                }
                assert forall|d: int, k: int|
                    #![trigger done@[d], best@[k]]
                    0 <= d < done@.len() - 1 && 0 <= k < best@.len() && best@[k].position == done@[d]
                        implies relaxed(board, ents, actor, maximum_distance, best@, done@[d], best@[k].movement_cost as int, best@[k].route@) by {
                    assert(k != kn);
                    assert(best@[k] == best_before[k]);
                    assert(relaxed(board, ents, actor, maximum_distance, best_before, done@[d], best_before[k].movement_cost as int, best_before[k].route@));
                    lemma_relaxed_grows(board, ents, actor, maximum_distance, best_before, best@, done@[d], best_before[k].movement_cost as int, best_before[k].route@);
                }
                assert forall|i: int|
                    0 <= i < n && step_ok(board, ents, actor, u, #[trigger] neighbours@[i]) && sat_u32(
                        c_u + entry_cost(cells, neighbours@[i]),
                    ) <= maximum_distance implies has_best(
                        best@,
                        neighbours@[i],
                        sat_u32(c_u + entry_cost(cells, neighbours@[i])),
                        r_u.push(neighbours@[i]),
                    ) by {
                    if i == i_n {
                        assert(neighbours@[i] == neighbour);
                    } else {
                        assert(has_best(best_before, neighbours@[i], sat_u32(c_u + entry_cost(cells, neighbours@[i])), r_u.push(neighbours@[i])));
                    }
                }
            }
        }
        proof {
            assert forall|d: int, k: int|
                #![trigger done@[d], best@[k]]
                0 <= d < done@.len() && 0 <= k < best@.len() && best@[k].position == done@[d]
                    implies relaxed(board, ents, actor, maximum_distance, best@, done@[d], best@[k].movement_cost as int, best@[k].route@) by {
                if d == done@.len() - 1 {
                    assert(best@[k].movement_cost == c_u);
                    assert forall|v: GridPosition|
                        #[trigger] step_ok(board, ents, actor, u, v) && sat_u32(
                            c_u + entry_cost(board.cells@, v),
                        ) <= maximum_distance implies has_best(best@, v, sat_u32(c_u + entry_cost(board.cells@, v)), r_u.push(v)) by {
                        assert(neighbours@.contains(v));
                        let i = choose|i: int| 0 <= i < neighbours@.len() && neighbours@[i] == v;
                        assert(step_ok(board, ents, actor, u, neighbours@[i]));
                    }
                }
            }
        }
    }
    proof {
        assert forall|k: int| 0 <= k < best@.len() implies done@.contains(#[trigger] best@[k].position) by {
            if !done@.contains(best@[k].position) {
                assert(queued(frontier@, best@[k]));
            }
        }
    }
    let ghost settled = best@;
    let mut paths: Vec<RpgCellPathView> = Vec::new();
    let mut c: usize = 0;
    while c < board.cells.len()
        invariant
            ents == entities@,
            actor == actor_id@,
            cells == board.cells@,
            settled == best@,
            origin == entities@[entity_index(entities@, actor_id@)].position,
            entity_index(entities@, actor_id@) >= 0,
            c <= cells.len(),
            forall|j: int|
                0 <= j < best@.len() ==> candidate_ok(
                    board,
                    ents,
                    actor,
                    origin,
                    maximum_distance,
                    #[trigger] best@[j],
                ),
            forall|i: int, j: int|
                0 <= i < best@.len() && 0 <= j < best@.len() && i != j ==> (#[trigger] best@[i]).position
                    != (#[trigger] best@[j]).position,
            forall|k: int| 0 <= k < best@.len() ==> done@.contains(#[trigger] best@[k].position),
            has_best(best@, origin, 0, Seq::empty()),
            settled_relaxed(board, ents, actor, maximum_distance, best@, done@, done@.len() as int),
            paths@.len() == destination_cells(board, ents, actor, maximum_distance, origin, c as int).len(),
            forall|r: int|
                0 <= r < paths@.len() ==> {
                    let dest = destination_cells(board, ents, actor, maximum_distance, origin, c as int);
                    &&& (#[trigger] paths@[r]).destination_cell_id@ == cells[dest[r]].id@
                    &&& cheapest_path(board, ents, actor, maximum_distance, origin, cells[dest[r]].position, paths@[r])
                    &&& path_sound(board, ents, actor, maximum_distance, paths@[r])
                },
        decreases board.cells.len() - c,
    {
        let cell = &board.cells[c];
        let ghost prior = destination_cells(board, ents, actor, maximum_distance, origin, c as int);
        let ghost p = cell.position;
        proof {
            assert(destination_cells(board, ents, actor, maximum_distance, origin, c + 1) == (if p
                != origin && reachable(board, ents, actor, maximum_distance, origin, p) {
                prior.push(c as int)
            } else {
                prior
            }));
        }
        let found = if cell.position != origin {
            find_route_for(&best, cell.position)
        } else {
            None
        };
        match found {
            Some(k) => {
                let view = RpgCellPathView {
                    destination_cell_id: cell.id.clone(),
                    cell_ids: copy_texts(&best[k].cell_ids),
                    movement_cost: best[k].movement_cost,
                };
                let ghost paths_before = paths@;
                let ghost view_cost = view.movement_cost;
                paths.push(view);
                proof {
                    let route = best@[k as int].route@;
                    let ids = texts(best@[k as int].cell_ids@);
                    assert(candidate_ok(board, ents, actor, origin, maximum_distance, best@[k as int]));
                    assert(route.len() > 0);
                    assert(board.cells@[c as int].position == route.last());
                    assert(movement_route(board, ents, actor, origin, route, ids));
                    assert(reachable(board, ents, actor, maximum_distance, origin, p));
                    assert(texts(view.cell_ids@) == ids);
                    assert forall|route2: Seq<GridPosition>, ids2: Seq<Seq<char>>|
                        #[trigger] movement_route(board, ents, actor, origin, route2, ids2) && route_cost(
                            board.cells@,
                            route2,
                        ) <= maximum_distance && route_end(origin, route2) == p implies view.movement_cost
                            <= route_cost(board.cells@, route2) by {
                        lemma_routes_meet_best(board, ents, actor, maximum_distance, origin, best@, done@, route2, ids2);
                        let kk = choose|kk: int| 0 <= kk < best@.len() && (#[trigger] best@[kk]).position == p && best@[kk].movement_cost <= route_cost(board.cells@, route2);
                        assert(kk == k);
                    }
                    if view_cost < u32::MAX {
                        assert forall|other: Seq<GridPosition>, other_ids: Seq<Seq<char>>|
                            #[trigger] movement_route(board, ents, actor, origin, other, other_ids)
                                && route_end(origin, other) == p && route_cost(board.cells@, other)
                                == view.movement_cost implies other == route || route_lt(route, other) by {
                            lemma_routes_meet_best(board, ents, actor, maximum_distance, origin, best@, done@, other, other_ids);
                            let kk = choose|kk: int|
                                0 <= kk < best@.len() && (#[trigger] best@[kk]).position == p && !key_before(
                                    route_cost(board.cells@, other),
                                    other,
                                    best@[kk].movement_cost as int,
                                    best@[kk].route@,
                                );
                            assert(best@[kk].position == p);
                            assert(kk == k);
                            lemma_route_order(other, route, route);
                        }
                    }
                    assert(movement_route(board, ents, actor, origin, route, texts(view.cell_ids@)));
                    assert(cheapest_path(board, ents, actor, maximum_distance, origin, p, view));
                    let dest = destination_cells(board, ents, actor, maximum_distance, origin, c + 1);
                    assert forall|r: int| 0 <= r < paths@.len() implies {
                        &&& (#[trigger] paths@[r]).destination_cell_id@ == cells[dest[r]].id@
                        &&& cheapest_path(board, ents, actor, maximum_distance, origin, cells[dest[r]].position, paths@[r])
                        &&& path_sound(board, ents, actor, maximum_distance, paths@[r])
                    } by {
                        if r < paths_before.len() {
                            assert(paths@[r] == paths_before[r]);
                            assert(dest[r] == prior[r]);
                        } else {
                            assert(paths@[r] == view);
                            assert(dest[r] == c);
                            assert(board.cells@[c as int] == board.cells@[c as int]);
                            assert(route.len() == route.len());
                        }
                    }
                }
            },
            None => {
                proof {
                    if p != origin && reachable(board, ents, actor, maximum_distance, origin, p) {
                        let (route2, ids2) = choose|route2: Seq<GridPosition>, ids2: Seq<Seq<char>>|
                            #[trigger] movement_route(board, ents, actor, origin, route2, ids2) && route_cost(
                                board.cells@,
                                route2,
                            ) <= maximum_distance && route_end(origin, route2) == p;
                        lemma_routes_meet_best(board, ents, actor, maximum_distance, origin, best@, done@, route2, ids2);
                        let kk = choose|kk: int| 0 <= kk < best@.len() && (#[trigger] best@[kk]).position == p && best@[kk].movement_cost <= route_cost(board.cells@, route2);
                        assert(best@[kk].position == p);
                    }
                }
            },
        }
        c = c + 1;
    }
    paths
}

proof fn lemma_destination_indices(
    board: &RpgBoardSetup,
    entities: Seq<RpgEntityState>,
    actor_id: Seq<char>,
    maximum_distance: u32,
    origin: GridPosition,
    n: int,
)
    ensures
        forall|m: int|
            0 <= m < destination_cells(board, entities, actor_id, maximum_distance, origin, n).len()
                ==> 0 <= #[trigger] destination_cells(
                board,
                entities,
                actor_id,
                maximum_distance,
                origin,
                n,
            )[m] < n,
    decreases n,
{
    if n > 0 {
        lemma_destination_indices(board, entities, actor_id, maximum_distance, origin, n - 1);
        let prior = destination_cells(board, entities, actor_id, maximum_distance, origin, n - 1);
        let all = destination_cells(board, entities, actor_id, maximum_distance, origin, n);
        assert forall|m: int| 0 <= m < all.len() implies 0 <= #[trigger] all[m] < n by {
            if m < prior.len() {
                assert(all[m] == prior[m]);
            }
        }
    }
}

proof fn lemma_destination_listed(
    board: &RpgBoardSetup,
    entities: Seq<RpgEntityState>,
    actor_id: Seq<char>,
    maximum_distance: u32,
    origin: GridPosition,
    n: int,
    k: int,
)
    requires
        0 <= k < n <= board.cells@.len(),
        board.cells@[k].position != origin,
        reachable(board, entities, actor_id, maximum_distance, origin, board.cells@[k].position),
    ensures
        destination_cells(board, entities, actor_id, maximum_distance, origin, n).contains(k),
    decreases n,
{
    let prior = destination_cells(board, entities, actor_id, maximum_distance, origin, n - 1);
    let all = destination_cells(board, entities, actor_id, maximum_distance, origin, n);
    if k == n - 1 {
        assert(all == prior.push(k));
        assert(all[prior.len() as int] == k);
    } else {
        lemma_destination_listed(board, entities, actor_id, maximum_distance, origin, n - 1, k);
        let m = choose|m: int| 0 <= m < prior.len() && prior[m] == k;
        if all == prior.push(n - 1) {
            assert(all[m] == prior[m]);
        }
    }
}

/// Movement steps to any of the four orthogonal neighbours: from the
/// actor's position (at no cost) or from any reported destination, a
/// neighbour one column left or right, or one row up or down, inside the
/// board, with an enterable cell that no other participant occupies, is
/// itself reported, at no more than the cost so far plus the cost of
/// entering it, whenever that sum is within the budget. (Cell identities
/// are unique, as validated boards have them.)
pub proof fn lemma_movement_reaches_neighbours(
    board: &RpgBoardSetup,
    entities: Seq<RpgEntityState>,
    actor_id: Seq<char>,
    maximum_distance: u32,
    paths: Seq<RpgCellPathView>,
    from: GridPosition,
    from_cost: int,
    to: GridPosition,
)
    requires
        movement_paths_match(board, entities, actor_id, maximum_distance, paths),
        forall|i: int, j: int|
            0 <= i < board.cells@.len() && 0 <= j < board.cells@.len() && i != j
                ==> (#[trigger] board.cells@[i]).id@ != (#[trigger] board.cells@[j]).id@,
        entity_index(entities, actor_id) >= 0,
        ({
            let origin = entities[entity_index(entities, actor_id)].position;
            (from == origin && from_cost == 0) || exists|r: int, k: int|
                0 <= r < paths.len() && 0 <= k < board.cells@.len()
                    && (#[trigger] paths[r]).destination_cell_id@ == (#[trigger] board.cells@[k]).id@
                    && board.cells@[k].position == from && paths[r].movement_cost == from_cost
        }),
        (to.x + 1 == from.x && to.y == from.y) || (to.x == from.x + 1 && to.y == from.y && to.x
            < board.width) || (to.y + 1 == from.y && to.x == from.x) || (to.y == from.y + 1 && to.x
            == from.x && to.y < board.height),
        to != entities[entity_index(entities, actor_id)].position,
        last_cell_index(board.cells@, to) >= 0,
        entry_cost(board.cells@, to) > 0,
        forall|e: int|
            0 <= e < entities.len() && (#[trigger] entities[e]).position == to ==> entities[e].id@
                == actor_id,
        from_cost + entry_cost(board.cells@, to) <= maximum_distance,
    ensures
        exists|r: int|
            0 <= r < paths.len() && (#[trigger] paths[r]).destination_cell_id@ == board.cells@[last_cell_index(
                board.cells@,
                to,
            )].id@ && paths[r].movement_cost <= from_cost + entry_cost(board.cells@, to),
{
    let cells = board.cells@;
    let origin = entities[entity_index(entities, actor_id)].position;
    let n = cells.len() as int;
    let dest = destination_cells(board, entities, actor_id, maximum_distance, origin, n);
    let t = last_cell_index(cells, to);
    crate::board::lemma_last_cell_index(cells, to);
    let (route, ids) = if from == origin && from_cost == 0 {
        (Seq::<GridPosition>::empty(), Seq::<Seq<char>>::empty())
    } else {
        let (r, k) = choose|r: int, k: int|
            0 <= r < paths.len() && 0 <= k < cells.len()
                && (#[trigger] paths[r]).destination_cell_id@ == (#[trigger] cells[k]).id@
                && cells[k].position == from && paths[r].movement_cost == from_cost;
        assert(paths[r].destination_cell_id@ == cells[dest[r]].id@);
        assert(dest[r] == k) by {
            lemma_destination_indices(board, entities, actor_id, maximum_distance, origin, n);
        }
        let route = choose|route: Seq<GridPosition>|
            #[trigger] movement_route(board, entities, actor_id, origin, route, texts(paths[r].cell_ids@))
                && route.len() > 0 && route.last() == cells[dest[r]].position
                && paths[r].movement_cost as int == route_cost(cells, route)
                && paths[r].movement_cost <= maximum_distance
                && (paths[r].movement_cost < u32::MAX ==> forall|
                other: Seq<GridPosition>,
                other_ids: Seq<Seq<char>>,
            |
                #[trigger] movement_route(board, entities, actor_id, origin, other, other_ids)
                    && route_end(origin, other) == cells[dest[r]].position && route_cost(cells, other)
                    == paths[r].movement_cost ==> other == route || route_lt(route, other));
        (route, texts(paths[r].cell_ids@))
    };
    assert(movement_route(board, entities, actor_id, origin, route, ids));
    assert(route_cost(cells, route) == from_cost);
    assert(route_end(origin, route) == from);
    let longer = route.push(to);
    let longer_ids = ids.push(cells[t].id@);
    assert(longer.drop_last() =~= route);
    assert(longer_ids.drop_last() =~= ids);
    assert(board_step(board, from, to));
    assert(!occupied_by_other(entities, actor_id, to));
    assert(movement_route(board, entities, actor_id, origin, longer, longer_ids));
    lemma_entry_cost_nonnegative(cells, to);
    assert(route_cost(cells, longer) == from_cost + entry_cost(cells, to));
    assert(route_end(origin, longer) == to);
    assert(reachable(board, entities, actor_id, maximum_distance, origin, cells[t].position));
    lemma_destination_listed(board, entities, actor_id, maximum_distance, origin, n, t);
    let r2 = choose|r2: int| 0 <= r2 < dest.len() && dest[r2] == t;
    assert(paths[r2].destination_cell_id@ == cells[t].id@);
    assert(cheapest_path(board, entities, actor_id, maximum_distance, origin, cells[t].position, paths[r2]));
    assert(paths[r2].movement_cost <= route_cost(cells, longer));
}

} // verus!
