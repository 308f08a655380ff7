use vstd::prelude::*;

use crate::board::{last_cell_at, last_cell_index, GridPosition, RpgBoardSetup};
use crate::sight::{line_of_effect_blockers, line_of_effect_projection, line_of_effect_reason};
use crate::board::RpgCellSetup;
use crate::model::{entity_index, find_entity, last_index_where, lemma_last_index_is, RpgEntityState};
use crate::text::{lemma_text_order, text, text_before, text_lt, texts};

verus! {

// ---------------------------------------------------------------------------
// Who stands where
// ---------------------------------------------------------------------------

/// No two entities share an identity (the capability state keys entities
/// by identity).
pub open spec fn identities_distinct(entities: Seq<RpgEntityState>) -> bool {
    forall|i: int, j: int|
        0 <= i < entities.len() && 0 <= j < entities.len() && i != j ==> (#[trigger] entities[i]).id@
            != (#[trigger] entities[j]).id@
}

/// `s` lists the entities standing at `p`, each once, in increasing
/// identity order.
pub open spec fn lists_occupants(entities: Seq<RpgEntityState>, p: GridPosition, s: Seq<int>) -> bool {
    &&& forall|k: int|
        0 <= k < s.len() ==> 0 <= #[trigger] s[k] < entities.len() && entities[s[k]].position == p
    &&& forall|j: int|
        0 <= j < entities.len() && (#[trigger] entities[j]).position == p ==> s.contains(j)
    &&& forall|a: int, b: int|
        0 <= a < b < s.len() ==> text_before(
            entities[#[trigger] s[a]].id@,
            entities[#[trigger] s[b]].id@,
        )
}

/// The entities standing at `p`, in increasing identity order.
pub open spec fn occupants(entities: Seq<RpgEntityState>, p: GridPosition) -> Seq<int> {
    choose|s: Seq<int>| lists_occupants(entities, p, s)
}

proof fn lemma_listing_unique(
    entities: Seq<RpgEntityState>,
    s1: Seq<int>,
    s2: Seq<int>,
)
    requires
        forall|k: int| 0 <= k < s1.len() ==> 0 <= #[trigger] s1[k] < entities.len(),
        forall|k: int| 0 <= k < s2.len() ==> 0 <= #[trigger] s2[k] < entities.len(),
        forall|x: int| s1.contains(x) <==> s2.contains(x),
        forall|a: int, b: int|
            0 <= a < b < s1.len() ==> text_before(
                entities[#[trigger] s1[a]].id@,
                entities[#[trigger] s1[b]].id@,
            ),
        forall|a: int, b: int|
            0 <= a < b < s2.len() ==> text_before(
                entities[#[trigger] s2[a]].id@,
                entities[#[trigger] s2[b]].id@,
            ),
    ensures
        s1 == s2,
    decreases s1.len(),
{
    if s1.len() == 0 {
        if s2.len() > 0 {
            assert(s2.contains(s2[0]));
        }
        assert(s1 =~= s2);
    } else {
        assert(s1.contains(s1[0]));
        assert(s2.contains(s1[0]));
        assert(s2.len() > 0);
        assert(s2.contains(s2[0]));
        assert(s1.contains(s2[0]));
        let m = choose|m: int| 0 <= m < s2.len() && s2[m] == s1[0];
        let k = choose|k: int| 0 <= k < s1.len() && s1[k] == s2[0];
        if s1[0] != s2[0] {
            assert(m != 0 && k != 0);
            assert(text_before(entities[s2[0]].id@, entities[s2[m]].id@));
            assert(text_before(entities[s1[0]].id@, entities[s1[k]].id@));
            lemma_text_order(entities[s1[0]].id@, entities[s2[0]].id@, entities[s1[0]].id@);
            assert(false);
        }
        assert(s1[0] == s2[0]);
        let t1 = s1.drop_first();
        let t2 = s2.drop_first();
        assert forall|x: int| t1.contains(x) implies t2.contains(x) by {
            let i = choose|i: int| 0 <= i < t1.len() && t1[i] == x;
            assert(s1[i + 1] == x);
            assert(s2.contains(x));
            let j = choose|j: int| 0 <= j < s2.len() && s2[j] == x;
            if j == 0 {
                lemma_text_order(entities[s1[0]].id@, entities[s1[0]].id@, entities[s1[0]].id@);
                assert(text_before(entities[s1[0]].id@, entities[s1[i + 1]].id@));
            }
            assert(t2[j - 1] == x);
        }
        assert forall|x: int| t2.contains(x) implies t1.contains(x) by {
            let i = choose|i: int| 0 <= i < t2.len() && t2[i] == x;
            assert(s2[i + 1] == x);
            assert(s1.contains(x));
            let j = choose|j: int| 0 <= j < s1.len() && s1[j] == x;
            if j == 0 {
                lemma_text_order(entities[s2[0]].id@, entities[s2[0]].id@, entities[s2[0]].id@);
                assert(text_before(entities[s2[0]].id@, entities[s2[i + 1]].id@));
            }
            assert(t1[j - 1] == x);
        }
        assert forall|a: int, b: int| 0 <= a < b < t1.len() implies text_before(
            entities[#[trigger] t1[a]].id@,
            entities[#[trigger] t1[b]].id@,
        ) by {
            assert(t1[a] == s1[a + 1] && t1[b] == s1[b + 1]);
        }
        assert forall|a: int, b: int| 0 <= a < b < t2.len() implies text_before(
            entities[#[trigger] t2[a]].id@,
            entities[#[trigger] t2[b]].id@,
        ) by {
            assert(t2[a] == s2[a + 1] && t2[b] == s2[b + 1]);
        }
        lemma_listing_unique(entities, t1, t2);
        assert(s1 =~= seq![s1[0]] + t1);
        assert(s2 =~= seq![s2[0]] + t2);
    }
}

/// The entities standing at `p`, in increasing identity order.
pub fn occupants_at(entities: &Vec<RpgEntityState>, p: GridPosition) -> (r: Vec<usize>)
    requires
        identities_distinct(entities@),
    ensures
        r@.map_values(|i: usize| i as int) == occupants(entities@, p),
        lists_occupants(entities@, p, occupants(entities@, p)),
{
    let mut out: Vec<usize> = Vec::new();
    let mut i: usize = 0;
    while i < entities.len()
        invariant
            identities_distinct(entities@),
            i <= entities@.len(),
            forall|k: int|
                0 <= k < out@.len() ==> (#[trigger] out@[k]) < i && entities@[out@[k] as int].position
                    == p,
            forall|j: int|
                0 <= j < i && (#[trigger] entities@[j]).position == p ==> out@.contains(j as usize),
            forall|a: int, b: int|
                0 <= a < b < out@.len() ==> text_before(
                    entities@[#[trigger] out@[a] as int].id@,
                    entities@[#[trigger] out@[b] as int].id@,
                ),
        decreases entities.len() - i,
    {
        if entities[i].position == p {
            let mut k: usize = 0;
            while k < out.len() && !text_lt(entities[i].id.as_str(), entities[out[k]].id.as_str())
                invariant
                    identities_distinct(entities@),
                    i < entities@.len(),
                    k <= out@.len(),
                    forall|q: int|
                        0 <= q < out@.len() ==> (#[trigger] out@[q]) < i,
                    forall|q: int|
                        0 <= q < k ==> !text_before(
                            entities@[i as int].id@,
                            entities@[#[trigger] out@[q] as int].id@,
                        ),
                decreases out.len() - k,
            {
                k = k + 1;
            }
            let ghost before = out@;
            proof {
                assert forall|q: int| 0 <= q < k implies text_before(
                    entities@[#[trigger] before[q] as int].id@,
                    entities@[i as int].id@,
                ) by {
                    assert(before[q] < i);
                    lemma_text_order(
                        entities@[before[q] as int].id@,
                        entities@[i as int].id@,
                        entities@[i as int].id@,
                    );
                }
                assert forall|q: int| k <= q < before.len() implies text_before(
                    entities@[i as int].id@,
                    entities@[#[trigger] before[q] as int].id@,
                ) by {
                    if q > k {
                        assert(text_before(
                            entities@[before[k as int] as int].id@,
                            entities@[before[q] as int].id@,
                        ));
                        lemma_text_order(
                            entities@[i as int].id@,
                            entities@[before[k as int] as int].id@,
                            entities@[before[q] as int].id@,
                        );
                    }
                }
            }
            out.insert(k, i);
            proof {
                assert(out@ == before.insert(k as int, i));
                assert forall|a: int, b: int| 0 <= a < b < out@.len() implies text_before(
                    entities@[#[trigger] out@[a] as int].id@,
                    entities@[#[trigger] out@[b] as int].id@,
                ) by {
                    if b < k {
                        assert(out@[a] == before[a] && out@[b] == before[b]);
                    } else if b == k {
                        assert(out@[a] == before[a]);
                    } else if a < k {
                        assert(out@[a] == before[a] && out@[b] == before[b - 1]);
                        lemma_text_order(
                            entities@[before[a] as int].id@,
                            entities@[i as int].id@,
                            entities@[before[b - 1] as int].id@,
                        );
                    } else if a == k {
                        assert(out@[b] == before[b - 1]);
                    } else {
                        assert(out@[a] == before[a - 1] && out@[b] == before[b - 1]);
                    }
                }
                assert forall|j: int|
                    0 <= j < i + 1 && (#[trigger] entities@[j]).position == p implies out@.contains(
                    j as usize,
                ) by {
                    if j < i {
                        let m = choose|m: int| 0 <= m < before.len() && before[m] == j as usize;
                        if m < k {
                            assert(out@[m] == before[m]);
                        } else {
                            assert(out@[m + 1] == before[m]);
                        }
                    } else {
                        assert(out@[k as int] == i);
                    }
                }
                assert forall|q: int| 0 <= q < out@.len() implies (#[trigger] out@[q]) < i + 1
                    && entities@[out@[q] as int].position == p by {
                    if q < k {
                        assert(out@[q] == before[q]);
                    } else if q > k {
                        assert(out@[q] == before[q - 1]);
                    }
                }
            }
        }
        i = i + 1;
    }
    let ghost s = out@.map_values(|i: usize| i as int);
    proof {
        assert(lists_occupants(entities@, p, s)) by {
            assert forall|j: int|
                0 <= j < entities@.len() && (#[trigger] entities@[j]).position == p implies s.contains(
                j,
            ) by {
                let m = choose|m: int| 0 <= m < out@.len() && out@[m] == j as usize;
                assert(s[m] == j);
            }
            assert forall|a: int, b: int| 0 <= a < b < s.len() implies text_before(
                entities@[#[trigger] s[a]].id@,
                entities@[#[trigger] s[b]].id@,
            ) by {
                assert(s[a] == out@[a] as int && s[b] == out@[b] as int);
            }
        }
        let c = occupants(entities@, p);
        assert(lists_occupants(entities@, p, c));
        assert forall|x: int| s.contains(x) <==> c.contains(x) by {
            if s.contains(x) {
                let m = choose|m: int| 0 <= m < s.len() && s[m] == x;
                assert(entities@[x].position == p);
            }
            if c.contains(x) {
                let m = choose|m: int| 0 <= m < c.len() && c[m] == x;
                assert(entities@[x].position == p);
            }
        }
        lemma_listing_unique(entities@, s, c);
    }
    out
}

// ---------------------------------------------------------------------------
// Candidate cells of an area
// ---------------------------------------------------------------------------

/// A candidate cell of an area: (distance from the area's centre, x, y).
pub type AreaPoint = (int, int, int);

pub open spec fn point_view(v: Seq<(u32, i64, i64)>) -> Seq<AreaPoint> {
    v.map_values(|c: (u32, i64, i64)| (c.0 as int, c.1 as int, c.2 as int))
}

pub open spec fn abs_int(v: int) -> int {
    if v < 0 {
        -v
    } else {
        v
    }
}

pub open spec fn sign_int(v: int) -> int {
    if v < 0 {
        -1
    } else if v > 0 {
        1
    } else {
        0
    }
}

/// The cells of the diamond ring at distance `d` in row `ay + dy`, x ascending.
pub open spec fn ring_row(ax: int, ay: int, d: int, dy: int) -> Seq<AreaPoint> {
    let w = d - abs_int(dy);
    if w == 0 {
        seq![(d, ax, ay + dy)]
    } else {
        seq![(d, ax - w, ay + dy), (d, ax + w, ay + dy)]
    }
}

/// The first `k` rows of the ring at distance `d`, y ascending.
pub open spec fn ring_rows(ax: int, ay: int, d: int, k: int) -> Seq<AreaPoint>
    decreases k,
{
    if k <= 0 {
        Seq::empty()
    } else {
        ring_rows(ax, ay, d, k - 1) + ring_row(ax, ay, d, -d + k - 1)
    }
}

/// The cells of a diamond of radius `r` around `(ax, ay)`, in increasing
/// (distance, y, x) order.
pub open spec fn diamond_points(ax: int, ay: int, r: int) -> Seq<AreaPoint>
    decreases r + 1,
{
    if r < 0 {
        Seq::empty()
    } else {
        diamond_points(ax, ay, r - 1) + ring_rows(ax, ay, r, 2 * r + 1)
    }
}

/// The `length` cells of an orthogonal line leaving `(ox, oy)` one step of
/// `(sx, sy)` at a time, nearest first.
pub open spec fn line_points(ox: int, oy: int, sx: int, sy: int, length: int) -> Seq<AreaPoint> {
    Seq::new(length as nat, |i: int| (i + 1, ox + sx * (i + 1), oy + sy * (i + 1)))
}

fn diamond_candidates(ax: u32, ay: u32, radius: u32) -> (r: Vec<(u32, i64, i64)>)
    requires
        radius <= 10,
    ensures
        point_view(r@) == diamond_points(ax as int, ay as int, radius as int),
{
    let mut out: Vec<(u32, i64, i64)> = Vec::new();
    let mut d: u32 = 0;
    while d <= radius
        invariant
            radius <= 10,
            d <= radius + 1,
            point_view(out@) == diamond_points(ax as int, ay as int, d - 1),
        decreases radius + 1 - d,
    {
        let ghost base = point_view(out@);
        let rows: u32 = 2 * d + 1;
        let mut k: u32 = 0;
        while k < rows
            invariant
                d <= 10,
                rows == 2 * d + 1,
                k <= rows,
                point_view(out@) == base + ring_rows(ax as int, ay as int, d as int, k as int),
            decreases rows - k,
        {
            let dy: i64 = k as i64 - d as i64;
            let ady: i64 = if dy < 0 {
                -dy
            } else {
                dy
            };
            let w: i64 = d as i64 - ady;
            let ghost prior = out@;
            if w == 0 {
                out.push((d, ax as i64, ay as i64 + dy));
            } else {
                out.push((d, ax as i64 - w, ay as i64 + dy));
                out.push((d, ax as i64 + w, ay as i64 + dy));
            }
            proof {
                assert(point_view(out@) =~= point_view(prior) + ring_row(
                    ax as int,
                    ay as int,
                    d as int,
                    dy as int,
                ));
                assert(ring_rows(ax as int, ay as int, d as int, k + 1) == ring_rows(
                    ax as int,
                    ay as int,
                    d as int,
                    k as int,
                ) + ring_row(ax as int, ay as int, d as int, -d + k));
            }
            k = k + 1;
        }
        proof {
            assert(diamond_points(ax as int, ay as int, d as int) == diamond_points(
                ax as int,
                ay as int,
                d - 1,
            ) + ring_rows(ax as int, ay as int, d as int, 2 * d + 1));
        }
        d = d + 1;
    }
    out
}

fn line_candidates(ox: u32, oy: u32, sx: i64, sy: i64, length: u32) -> (r: Vec<(u32, i64, i64)>)
    requires
        -1 <= sx <= 1,
        -1 <= sy <= 1,
        length <= 256,
    ensures
        point_view(r@) == line_points(ox as int, oy as int, sx as int, sy as int, length as int),
{
    let mut out: Vec<(u32, i64, i64)> = Vec::new();
    let mut d: u32 = 1;
    while d <= length
        invariant
            -1 <= sx <= 1,
            -1 <= sy <= 1,
            length <= 256,
            1 <= d <= length + 1,
            point_view(out@) == line_points(ox as int, oy as int, sx as int, sy as int, d - 1),
        decreases length + 1 - d,
    {
        let x: i64 = if sx > 0 {
            ox as i64 + d as i64
        } else if sx < 0 {
            ox as i64 - d as i64
        } else {
            ox as i64
        };
        let y: i64 = if sy > 0 {
            oy as i64 + d as i64
        } else if sy < 0 {
            oy as i64 - d as i64
        } else {
            oy as i64
        };
        proof {
            assert(x == ox + sx * d) by (nonlinear_arith)
                requires
                    -1 <= sx <= 1,
                    x == (if sx > 0 {
                        ox + d
                    } else if sx < 0 {
                        ox - d
                    } else {
                        ox as int
                    }),
            ;
            assert(y == oy + sy * d) by (nonlinear_arith)
                requires
                    -1 <= sy <= 1,
                    y == (if sy > 0 {
                        oy + d
                    } else if sy < 0 {
                        oy - d
                    } else {
                        oy as int
                    }),
            ;
        }
        let ghost prior = out@;
        out.push((d, x, y));
        proof {
            assert(point_view(out@) =~= point_view(prior).push((d as int, x as int, y as int)));
            assert(line_points(ox as int, oy as int, sx as int, sy as int, d as int) =~= line_points(
                ox as int,
                oy as int,
                sx as int,
                sy as int,
                d - 1,
            ).push((d as int, x as int, y as int)));
            assert(point_view(out@) =~= line_points(
                ox as int,
                oy as int,
                sx as int,
                sy as int,
                d as int,
            ));
        }
        d = d + 1;
    }
    out
}

// ---------------------------------------------------------------------------
// Area selectors and projections
// ---------------------------------------------------------------------------

/// Where an area is centred.
#[derive(Debug, Clone, Copy, PartialEq, Eq, Structural)]
pub enum RpgAreaOrigin {
    Anchor,
    Actor,
}

/// The shape of an area.
#[derive(Debug, Clone, Copy, PartialEq, Eq, Structural)]
pub enum RpgAreaShape {
    Diamond { radius: u32 },
    OrthogonalLine { length: u32 },
}

/// An area an action affects.
#[derive(Debug, Clone, Copy, PartialEq, Eq, Structural)]
pub struct RpgAreaSelector {
    pub origin: RpgAreaOrigin,
    pub shape: RpgAreaShape,
    pub living_required: bool,
    pub minimum_targets: u32,
}

/// Whether targets must be in line of effect.
#[derive(Debug, Clone, Copy, PartialEq, Eq, Structural)]
pub enum RpgLineOfEffectRequirement {
    Required,
    NotRequired,
}

/// Which teams an action may target, relative to the actor's.
#[derive(Debug, Clone, Copy, PartialEq, Eq, Structural)]
pub enum RpgTeamConstraint {
    Hostile,
    Ally,
    Any,
}

/// How an action selects its targets.
#[derive(Debug, Clone, Copy)]
pub struct RpgTargetSelector {
    pub area: Option<RpgAreaSelector>,
    pub maximum_range: u32,
    pub line_of_effect: RpgLineOfEffectRequirement,
    pub team: RpgTeamConstraint,
    pub maximum_targets: u32,
}

/// A cell an area includes.
#[derive(Debug, Clone)]
pub struct RpgAreaCell {
    pub id: String,
    pub position: GridPosition,
}

/// A candidate cell an area leaves out, and why.
#[derive(Debug, Clone)]
pub struct RpgAreaFilteredCellView {
    pub x: i64,
    pub y: i64,
    pub reason: String,
    pub blocking_cell_ids: Vec<String>,
}

/// A participant an area leaves out, and why.
#[derive(Debug, Clone)]
pub struct RpgAreaFilteredParticipantView {
    pub participant_id: String,
    pub reason: String,
    pub blocking_cell_ids: Vec<String>,
}

/// The cells and participants an area action anchored on a cell affects.
#[derive(Debug, Clone)]
pub struct RpgAreaProjection {
    pub origin: RpgAreaOrigin,
    pub shape: RpgAreaShape,
    pub origin_cell_id: String,
    pub anchor_cell_id: String,
    pub included_cells: Vec<RpgAreaCell>,
    pub filtered_cells: Vec<RpgAreaFilteredCellView>,
    pub included_participant_ids: Vec<String>,
    pub filtered_participants: Vec<RpgAreaFilteredParticipantView>,
}

pub open spec fn coords_in_board(board: &RpgBoardSetup, x: int, y: int) -> bool {
    0 <= x < board.width && 0 <= y < board.height
}

pub open spec fn coords_position(x: int, y: int) -> GridPosition {
    GridPosition { x: x as u32, y: y as u32 }
}

/// A candidate cell the area includes: on the board, present, and (where
/// required) in line of effect from the origin.
pub open spec fn point_included(
    board: &RpgBoardSetup,
    origin: GridPosition,
    loe: bool,
    c: AreaPoint,
) -> bool {
    let p = coords_position(c.1, c.2);
    &&& coords_in_board(board, c.1, c.2)
    &&& last_cell_index(board.cells@, p) >= 0
    &&& (loe ==> line_of_effect_reason(board.cells@, origin, p) is None)
}

/// Why a candidate cell is left out.
pub open spec fn point_reason(board: &RpgBoardSetup, origin: GridPosition, c: AreaPoint) -> Seq<
    char,
> {
    let p = coords_position(c.1, c.2);
    if !coords_in_board(board, c.1, c.2) {
        "outsideBoard"@
    } else if last_cell_index(board.cells@, p) < 0 {
        "cellMissing"@
    } else {
        line_of_effect_reason(board.cells@, origin, p)->Some_0.spelling()
    }
}

/// The cells that block a left-out candidate's line of effect.
pub open spec fn point_blockers(board: &RpgBoardSetup, origin: GridPosition, c: AreaPoint) -> Seq<
    Seq<char>,
> {
    let p = coords_position(c.1, c.2);
    if !coords_in_board(board, c.1, c.2) || last_cell_index(board.cells@, p) < 0 {
        Seq::empty()
    } else {
        line_of_effect_blockers(board.cells@, origin, p)
    }
}

/// The included cells of a candidate list, as (id, position), in order.
pub open spec fn included_points(
    board: &RpgBoardSetup,
    origin: GridPosition,
    loe: bool,
    cands: Seq<AreaPoint>,
) -> Seq<(Seq<char>, GridPosition)>
    decreases cands.len(),
{
    if cands.len() == 0 {
        Seq::empty()
    } else {
        let prev = included_points(board, origin, loe, cands.drop_last());
        let c = cands.last();
        let p = coords_position(c.1, c.2);
        if point_included(board, origin, loe, c) {
            prev.push((board.cells@[last_cell_index(board.cells@, p)].id@, p))
        } else {
            prev
        }
    }
}

/// The left-out cells of a candidate list, as (x, y, reason, blockers), in
/// order.
pub open spec fn filtered_points(
    board: &RpgBoardSetup,
    origin: GridPosition,
    loe: bool,
    cands: Seq<AreaPoint>,
) -> Seq<(int, int, Seq<char>, Seq<Seq<char>>)>
    decreases cands.len(),
{
    if cands.len() == 0 {
        Seq::empty()
    } else {
        let prev = filtered_points(board, origin, loe, cands.drop_last());
        let c = cands.last();
        if point_included(board, origin, loe, c) {
            prev
        } else {
            prev.push((c.1, c.2, point_reason(board, origin, c), point_blockers(board, origin, c)))
        }
    }
}

pub open spec fn cell_views(v: Seq<RpgAreaCell>) -> Seq<(Seq<char>, GridPosition)> {
    v.map_values(|c: RpgAreaCell| (c.id@, c.position))
}

pub open spec fn filtered_cell_views(v: Seq<RpgAreaFilteredCellView>) -> Seq<
    (int, int, Seq<char>, Seq<Seq<char>>),
> {
    v.map_values(
        |c: RpgAreaFilteredCellView| (c.x as int, c.y as int, c.reason@, texts(c.blocking_cell_ids@)),
    )
}

pub open spec fn participant_views(v: Seq<RpgAreaFilteredParticipantView>) -> Seq<
    (Seq<char>, Seq<char>, Seq<Seq<char>>),
> {
    v.map_values(
        |c: RpgAreaFilteredParticipantView|
            (c.participant_id@, c.reason@, texts(c.blocking_cell_ids@)),
    )
}

fn classify_points(
    board: &RpgBoardSetup,
    origin: GridPosition,
    loe: bool,
    cands: &Vec<(u32, i64, i64)>,
) -> (r: (Vec<RpgAreaCell>, Vec<RpgAreaFilteredCellView>))
    ensures
        cell_views(r.0@) == included_points(board, origin, loe, point_view(cands@)),
        filtered_cell_views(r.1@) == filtered_points(board, origin, loe, point_view(cands@)),
{
    let ghost pts = point_view(cands@);
    let mut included: Vec<RpgAreaCell> = Vec::new();
    let mut filtered: Vec<RpgAreaFilteredCellView> = Vec::new();
    let mut i: usize = 0;
    while i < cands.len()
        invariant
            pts == point_view(cands@),
            i <= cands@.len(),
            cell_views(included@) == included_points(board, origin, loe, pts.take(i as int)),
            filtered_cell_views(filtered@) == filtered_points(board, origin, loe, pts.take(i as int)),
        decreases cands.len() - i,
    {
        let (_distance, x, y) = cands[i];
        let ghost c = pts[i as int];
        proof {
            assert(pts.take(i + 1).drop_last() =~= pts.take(i as int));
            assert(pts.take(i + 1).last() == c);
            assert(c == (cands@[i as int].0 as int, x as int, y as int));
        }
        let ghost inc_before = included@;
        let ghost fil_before = filtered@;
        if x < 0 || y < 0 || x >= board.width as i64 || y >= board.height as i64 {
            filtered.push(
                RpgAreaFilteredCellView {
                    x,
                    y,
                    reason: text("outsideBoard"),
                    blocking_cell_ids: Vec::new(),
                },
            );
        } else {
            let position = GridPosition { x: x as u32, y: y as u32 };
            assert(position == coords_position(c.1, c.2));
            match last_cell_at(&board.cells, position) {
                None => {
                    filtered.push(
                        RpgAreaFilteredCellView {
                            x,
                            y,
                            reason: text("cellMissing"),
                            blocking_cell_ids: Vec::new(),
                        },
                    );
                },
                Some(k) => {
                    let mut blocked: Option<crate::board::RpgLineOfEffectProjection> = None;
                    if loe {
                        let projection = line_of_effect_projection(board, origin, position);
                        if !projection.clear {
                            blocked = Some(projection);
                        }
                    }
                    match blocked {
                        Some(projection) => {
                            let reason = match projection.reason {
                                Some(reason) => text(reason.as_str()),
                                None => text("lineOfEffectBlocked"),
                            };
                            filtered.push(
                                RpgAreaFilteredCellView {
                                    x,
                                    y,
                                    reason,
                                    blocking_cell_ids: projection.blocking_cell_ids,
                                },
                            );
                        },
                        None => {
                            included.push(
                                RpgAreaCell { id: board.cells[k].id.clone(), position },
                            );
                        },
                    }
                },
            }
        }
        proof {
            assert(cell_views(included@) =~= included_points(
                board,
                origin,
                loe,
                pts.take(i + 1),
            )) by {
                if included@.len() > inc_before.len() {
                    assert(cell_views(included@) =~= cell_views(inc_before).push(
                        cell_views(included@).last(),
                    ));
                } else {
                    assert(included@ == inc_before);
                }
            }
            assert(filtered_cell_views(filtered@) =~= filtered_points(
                board,
                origin,
                loe,
                pts.take(i + 1),
            )) by {
                if filtered@.len() > fil_before.len() {
                    assert(filtered_cell_views(filtered@) =~= filtered_cell_views(fil_before).push(
                        filtered_cell_views(filtered@).last(),
                    ));
                    assert(!point_included(board, origin, loe, c));
                    assert(filtered_cell_views(filtered@).last().0 == c.1);
                    assert(filtered_cell_views(filtered@).last().2 == point_reason(board, origin, c));
                    assert(filtered_cell_views(filtered@).last().3 == point_blockers(board, origin, c));
                } else {
                    assert(filtered@ == fil_before);
                }
            }
        }
        i = i + 1;
    }
    proof {
        assert(pts.take(i as int) =~= pts);
    }
    (included, filtered)
}

pub open spec fn is_line_of_effect_reason(r: Seq<char>) -> bool {
    r == "lineOfEffectBlocked"@ || r == "lineOfEffectCellMissing"@
}

pub open spec fn fits_u32(v: int) -> bool {
    0 <= v <= u32::MAX
}

/// The participants standing on cells left out for want of line of effect,
/// cell by cell, each with its cell's reason and blockers.
pub open spec fn shadowed(
    entities: Seq<RpgEntityState>,
    fs: Seq<(int, int, Seq<char>, Seq<Seq<char>>)>,
) -> Seq<(Seq<char>, Seq<char>, Seq<Seq<char>>)>
    decreases fs.len(),
{
    if fs.len() == 0 {
        Seq::empty()
    } else {
        let f = fs.last();
        shadowed(entities, fs.drop_last()) + if is_line_of_effect_reason(f.2) && fits_u32(f.0)
            && fits_u32(f.1) {
            occupants(entities, coords_position(f.0, f.1)).map_values(
                |e: int| (entities[e].id@, f.2, f.3),
            )
        } else {
            Seq::empty()
        }
    }
}

/// Why an entity standing on an included cell is not a target, if it is not.
pub open spec fn occupant_refusal(
    e: RpgEntityState,
    actor_team: Seq<char>,
    team: RpgTeamConstraint,
    living_required: bool,
) -> Option<Seq<char>> {
    let allowed = match team {
        RpgTeamConstraint::Hostile => e.team_id@ != actor_team,
        RpgTeamConstraint::Ally => e.team_id@ == actor_team,
        RpgTeamConstraint::Any => true,
    };
    if !allowed {
        Some("teamMismatch"@)
    } else if living_required && e.vitality.current <= 0 {
        Some("notLiving"@)
    } else {
        None
    }
}

/// The targets among a list of occupants.
pub open spec fn admitted(
    entities: Seq<RpgEntityState>,
    actor_team: Seq<char>,
    team: RpgTeamConstraint,
    living_required: bool,
    occ: Seq<int>,
) -> Seq<Seq<char>>
    decreases occ.len(),
{
    if occ.len() == 0 {
        Seq::empty()
    } else {
        let e = entities[occ.last()];
        admitted(entities, actor_team, team, living_required, occ.drop_last()) + if occupant_refusal(
            e,
            actor_team,
            team,
            living_required,
        ) is None {
            seq![e.id@]
        } else {
            Seq::empty()
        }
    }
}

/// The non-targets among a list of occupants, with why.
pub open spec fn refused(
    entities: Seq<RpgEntityState>,
    actor_team: Seq<char>,
    team: RpgTeamConstraint,
    living_required: bool,
    occ: Seq<int>,
) -> Seq<(Seq<char>, Seq<char>, Seq<Seq<char>>)>
    decreases occ.len(),
{
    if occ.len() == 0 {
        Seq::empty()
    } else {
        let e = entities[occ.last()];
        refused(entities, actor_team, team, living_required, occ.drop_last()) + match occupant_refusal(
            e,
            actor_team,
            team,
            living_required,
        ) {
            Some(reason) => seq![(e.id@, reason, Seq::<Seq<char>>::empty())],
            None => Seq::empty(),
        }
    }
}

/// The targets standing on included cells, cell by cell.
pub open spec fn admitted_on_cells(
    entities: Seq<RpgEntityState>,
    actor_team: Seq<char>,
    team: RpgTeamConstraint,
    living_required: bool,
    cells: Seq<(Seq<char>, GridPosition)>,
) -> Seq<Seq<char>>
    decreases cells.len(),
{
    if cells.len() == 0 {
        Seq::empty()
    } else {
        admitted_on_cells(entities, actor_team, team, living_required, cells.drop_last()) + admitted(
            entities,
            actor_team,
            team,
            living_required,
            occupants(entities, cells.last().1),
        )
    }
}

/// The non-targets standing on included cells, cell by cell.
pub open spec fn refused_on_cells(
    entities: Seq<RpgEntityState>,
    actor_team: Seq<char>,
    team: RpgTeamConstraint,
    living_required: bool,
    cells: Seq<(Seq<char>, GridPosition)>,
) -> Seq<(Seq<char>, Seq<char>, Seq<Seq<char>>)>
    decreases cells.len(),
{
    if cells.len() == 0 {
        Seq::empty()
    } else {
        refused_on_cells(entities, actor_team, team, living_required, cells.drop_last()) + refused(
            entities,
            actor_team,
            team,
            living_required,
            occupants(entities, cells.last().1),
        )
    }
}

fn shadowed_participants(
    entities: &Vec<RpgEntityState>,
    filtered: &Vec<RpgAreaFilteredCellView>,
) -> (r: Vec<RpgAreaFilteredParticipantView>)
    requires
        identities_distinct(entities@),
    ensures
        participant_views(r@) == shadowed(entities@, filtered_cell_views(filtered@)),
{
    let ghost fs = filtered_cell_views(filtered@);
    let mut out: Vec<RpgAreaFilteredParticipantView> = Vec::new();
    let mut i: usize = 0;
    while i < filtered.len()
        invariant
            identities_distinct(entities@),
            fs == filtered_cell_views(filtered@),
            i <= filtered@.len(),
            participant_views(out@) == shadowed(entities@, fs.take(i as int)),
        decreases filtered.len() - i,
    {
        let cell = &filtered[i];
        let ghost f = fs[i as int];
        proof {
            assert(fs.take(i + 1).drop_last() =~= fs.take(i as int));
            assert(fs.take(i + 1).last() == f);
        }
        let ghost base = participant_views(out@);
        let loe_reason = cell.reason == text("lineOfEffectBlocked") || cell.reason == text(
            "lineOfEffectCellMissing",
        );
        if loe_reason && cell.x >= 0 && cell.y >= 0 && cell.x <= u32::MAX as i64 && cell.y
            <= u32::MAX as i64 {
            let position = GridPosition { x: cell.x as u32, y: cell.y as u32 };
            let occ = occupants_at(entities, position);
            let ghost occ_view = occ@.map_values(|i: usize| i as int);
            let ghost add = occ_view.map_values(|e: int| (entities@[e].id@, f.2, f.3));
            let mut j: usize = 0;
            while j < occ.len()
                invariant
                    occ_view == occ@.map_values(|i: usize| i as int),
                    occ_view == occupants(entities@, position),
                    lists_occupants(entities@, position, occ_view),
                    add == occ_view.map_values(|e: int| (entities@[e].id@, f.2, f.3)),
                    f == (cell.x as int, cell.y as int, cell.reason@, texts(cell.blocking_cell_ids@)),
                    j <= occ@.len(),
                    participant_views(out@) == base + add.take(j as int),
                decreases occ.len() - j,
            {
                let e = occ[j];
                proof {
                    assert(occ_view[j as int] == e as int);
                    assert(0 <= occ_view[j as int] < entities@.len());
                }
                let ghost before = out@;
                out.push(
                    RpgAreaFilteredParticipantView {
                        participant_id: entities[e].id.clone(),
                        reason: cell.reason.clone(),
                        blocking_cell_ids: crate::movement::copy_texts(&cell.blocking_cell_ids),
                    },
                );
                proof {
                    assert(participant_views(out@) =~= participant_views(before).push(add[j as int]));
                    assert(add.take(j + 1) =~= add.take(j as int).push(add[j as int]));
                }
                j = j + 1;
            }
            proof {
                assert(add.take(j as int) =~= add);
                assert(occupants(entities@, position) == occupants(
                    entities@,
                    coords_position(f.0, f.1),
                ));
            }
        }
        proof {
            assert(participant_views(out@) =~= shadowed(entities@, fs.take(i + 1)));
        }
        i = i + 1;
    }
    proof {
        assert(fs.take(i as int) =~= fs);
    }
    out
}

fn refusal_of(e: &RpgEntityState, actor_team: &String, team: RpgTeamConstraint, living_required: bool) -> (r:
    Option<&'static str>)
    ensures
        match r {
            None => occupant_refusal(*e, actor_team@, team, living_required) is None,
            Some(x) => occupant_refusal(*e, actor_team@, team, living_required) == Some(x@),
        },
{
    let allowed = match team {
        RpgTeamConstraint::Hostile => e.team_id != *actor_team,
        RpgTeamConstraint::Ally => e.team_id == *actor_team,
        RpgTeamConstraint::Any => true,
    };
    if !allowed {
        Some("teamMismatch")
    } else if living_required && e.vitality.current <= 0 {
        Some("notLiving")
    } else {
        None
    }
}

fn cell_participants(
    entities: &Vec<RpgEntityState>,
    actor_team: &String,
    team: RpgTeamConstraint,
    living_required: bool,
    cells: &Vec<RpgAreaCell>,
) -> (r: (Vec<String>, Vec<RpgAreaFilteredParticipantView>))
    requires
        identities_distinct(entities@),
    ensures
        texts(r.0@) == admitted_on_cells(
            entities@,
            actor_team@,
            team,
            living_required,
            cell_views(cells@),
        ),
        participant_views(r.1@) == refused_on_cells(
            entities@,
            actor_team@,
            team,
            living_required,
            cell_views(cells@),
        ),
{
    let ghost cs = cell_views(cells@);
    let mut ids: Vec<String> = Vec::new();
    let mut others: Vec<RpgAreaFilteredParticipantView> = Vec::new();
    let mut i: usize = 0;
    while i < cells.len()
        invariant
            identities_distinct(entities@),
            cs == cell_views(cells@),
            i <= cells@.len(),
            texts(ids@) == admitted_on_cells(
                entities@,
                actor_team@,
                team,
                living_required,
                cs.take(i as int),
            ),
            participant_views(others@) == refused_on_cells(
                entities@,
                actor_team@,
                team,
                living_required,
                cs.take(i as int),
            ),
        decreases cells.len() - i,
    {
        proof {
            assert(cs.take(i + 1).drop_last() =~= cs.take(i as int));
            assert(cs.take(i + 1).last() == cs[i as int]);
        }
        let position = cells[i].position;
        let occ = occupants_at(entities, position);
        let ghost occ_view = occ@.map_values(|i: usize| i as int);
        let ghost ids_base = texts(ids@);
        let ghost others_base = participant_views(others@);
        let mut j: usize = 0;
        while j < occ.len()
            invariant
                occ_view == occ@.map_values(|i: usize| i as int),
                lists_occupants(entities@, position, occ_view),
                j <= occ@.len(),
                texts(ids@) == ids_base + admitted(
                    entities@,
                    actor_team@,
                    team,
                    living_required,
                    occ_view.take(j as int),
                ),
                participant_views(others@) == others_base + refused(
                    entities@,
                    actor_team@,
                    team,
                    living_required,
                    occ_view.take(j as int),
                ),
            decreases occ.len() - j,
        {
            let e = occ[j];
            proof {
                assert(occ_view[j as int] == e as int);
                assert(0 <= occ_view[j as int] < entities@.len());
                assert(occ_view.take(j + 1).drop_last() =~= occ_view.take(j as int));
                assert(occ_view.take(j + 1).last() == e as int);
            }
            let ghost ids_before = ids@;
            let ghost others_before = others@;
            match refusal_of(&entities[e], actor_team, team, living_required) {
                None => {
                    ids.push(entities[e].id.clone());
                    proof {
                        assert(texts(ids@) =~= texts(ids_before).push(entities@[e as int].id@));
                    }
                },
                Some(reason) => {
                    others.push(
                        RpgAreaFilteredParticipantView {
                            participant_id: entities[e].id.clone(),
                            reason: text(reason),
                            blocking_cell_ids: Vec::new(),
                        },
                    );
                    proof {
                        assert(texts(others@.last().blocking_cell_ids@) =~= Seq::<Seq<char>>::empty());
                        assert(participant_views(others@) =~= participant_views(others_before).push(
                            (entities@[e as int].id@, reason@, Seq::<Seq<char>>::empty()),
                        ));
                    }
                },
            }
            j = j + 1;
        }
        proof {
            assert(occ_view.take(j as int) =~= occ_view);
        }
        i = i + 1;
    }
    proof {
        assert(cs.take(i as int) =~= cs);
    }
    (ids, others)
}

proof fn lemma_ring_rows_len(ax: int, ay: int, d: int, k: int)
    requires
        d >= 1,
        0 <= k <= 2 * d + 1,
    ensures
        ring_rows(ax, ay, d, k).len() == 2 * k - (if k >= 1 {
            1int
        } else {
            0int
        }) - (if k == 2 * d + 1 {
            1int
        } else {
            0int
        }),
    decreases k,
{
    if k > 0 {
        lemma_ring_rows_len(ax, ay, d, k - 1);
    }
}

/// A diamond of radius `r` has `2r² + 2r + 1` cells.
pub proof fn lemma_diamond_len(ax: int, ay: int, r: int)
    requires
        r >= 0,
    ensures
        diamond_points(ax, ay, r).len() == 2 * r * r + 2 * r + 1,
    decreases r,
{
    if r == 0 {
        assert(ring_rows(ax, ay, 0, 1) == ring_rows(ax, ay, 0, 0) + ring_row(ax, ay, 0, 0));
        assert(ring_rows(ax, ay, 0, 1).len() == 1);
        assert(diamond_points(ax, ay, -1).len() == 0);
        assert(diamond_points(ax, ay, 0) == diamond_points(ax, ay, -1) + ring_rows(ax, ay, 0, 1));
    } else {
        lemma_diamond_len(ax, ay, r - 1);
        lemma_ring_rows_len(ax, ay, r, 2 * r + 1);
        assert(diamond_points(ax, ay, r) == diamond_points(ax, ay, r - 1) + ring_rows(
            ax,
            ay,
            r,
            2 * r + 1,
        ));
        assert(ring_rows(ax, ay, r, 2 * r + 1).len() == 4 * r);
        assert(2 * (r - 1) * (r - 1) + 2 * (r - 1) + 1 + 4 * r == 2 * r * r + 2 * r + 1)
            by (nonlinear_arith);
    }
}

pub open spec fn cell_named(id: Seq<char>) -> spec_fn(RpgCellSetup) -> bool {
    |c: RpgCellSetup| c.id@ == id
}

fn last_cell_named(cells: &Vec<RpgCellSetup>, id: &String) -> (r: Option<usize>)
    ensures
        match r {
            Some(k) => k < cells@.len() && k as int == last_index_where(cells@, cell_named(id@)),
            None => last_index_where(cells@, cell_named(id@)) == -1,
        },
{
    let mut k = cells.len();
    while k > 0
        invariant
            k <= cells@.len(),
            forall|q: int| k <= q < cells@.len() ==> !cell_named(id@)(#[trigger] cells@[q]),
        decreases k,
    {
        if cells[k - 1].id == *id {
            proof {
                lemma_last_index_is(cells@, cell_named(id@), k - 1);
            }
            return Some(k - 1);
        }
        k = k - 1;
    }
    proof {
        lemma_last_index_is(cells@, cell_named(id@), -1);
    }
    None
}

/// Everything an area projection needs before it looks at the candidate
/// cells: (actor entity, anchor cell, origin cell, candidate cells), or
/// `None` when the action has no area, the actor or the anchor is unknown,
/// the anchor is out of range or (where required) out of the actor's line of
/// effect, or the area's origin and shape do not fit together, the actor or
/// the anchor, or give no or more than 256 candidate cells.
pub open spec fn area_setup(
    board: &RpgBoardSetup,
    entities: Seq<RpgEntityState>,
    actor_id: Seq<char>,
    targets: RpgTargetSelector,
    anchor_id: Seq<char>,
) -> Option<(int, int, int, Seq<AreaPoint>)> {
    let cells = board.cells@;
    let a = entity_index(entities, actor_id);
    let k = last_index_where(cells, cell_named(anchor_id));
    if targets.area is None || a < 0 || k < 0 {
        None
    } else {
        let area = targets.area->Some_0;
        let actor_pos = entities[a].position;
        let anchor_pos = cells[k].position;
        let loe = targets.line_of_effect == RpgLineOfEffectRequirement::Required;
        let raw = abs_int(actor_pos.x - anchor_pos.x) + abs_int(actor_pos.y - anchor_pos.y);
        let range = if raw > u32::MAX {
            u32::MAX as int
        } else {
            raw
        };
        let ac = last_cell_index(cells, actor_pos);
        if range > targets.maximum_range {
            None
        } else if loe && (ac < 0 || line_of_effect_reason(cells, actor_pos, anchor_pos) is Some) {
            None
        } else {
            match (area.origin, area.shape) {
                (RpgAreaOrigin::Anchor, RpgAreaShape::Diamond { radius }) => {
                    let pts = diamond_points(anchor_pos.x as int, anchor_pos.y as int, radius as int);
                    if pts.len() > 256 {
                        None
                    } else {
                        Some((a, k, k, pts))
                    }
                },
                (RpgAreaOrigin::Actor, RpgAreaShape::OrthogonalLine { length }) => {
                    let dx = anchor_pos.x - actor_pos.x;
                    let dy = anchor_pos.y - actor_pos.y;
                    if ac < 0 || (dx == 0) == (dy == 0) || abs_int(dx) + abs_int(dy) > length
                        || length == 0 || length > 256 {
                        None
                    } else {
                        Some(
                            (
                                a,
                                k,
                                ac,
                                line_points(
                                    actor_pos.x as int,
                                    actor_pos.y as int,
                                    sign_int(dx),
                                    sign_int(dy),
                                    length as int,
                                ),
                            ),
                        )
                    }
                },
                _ => None,
            }
        }
    }
}

fn u32_distance(a: u32, b: u32) -> (d: u32)
    ensures
        d == abs_int(a - b),
{
    if a > b {
        a - b
    } else {
        b - a
    }
}

/// Whether `r` is the area projection of `actor_id`'s action anchored on
/// cell `anchor_cell_id`: none without an area setup, without the anchor
/// among the included cells or with a target count outside the action's
/// bounds; otherwise the included and filtered cells and participants.
pub open spec fn projection_matches(
    board: &RpgBoardSetup,
    entities: Seq<RpgEntityState>,
    actor_id: Seq<char>,
    targets: RpgTargetSelector,
    anchor_cell_id: Seq<char>,
    r: Option<RpgAreaProjection>,
) -> bool {
    match area_setup(board, entities, actor_id, targets, anchor_cell_id) {
        None => r is None,
        Some((a, k, o, pts)) => {
            let area = targets.area->Some_0;
            let cells = board.cells@;
            let origin_pos = cells[last_index_where(cells, cell_named(cells[o].id@))].position;
            let loe = targets.line_of_effect == RpgLineOfEffectRequirement::Required;
            let inc = included_points(board, origin_pos, loe, pts);
            let fil = filtered_points(board, origin_pos, loe, pts);
            let team = entities[a].team_id@;
            let ids = admitted_on_cells(entities, team, targets.team, area.living_required, inc);
            let anchored = exists|j: int| 0 <= j < inc.len() && (#[trigger] inc[j]).0 == anchor_cell_id;
            if !anchored || ids.len() < area.minimum_targets || ids.len() > targets.maximum_targets {
                r is None
            } else {
                &&& r matches Some(p)
                &&& p.origin == area.origin
                &&& p.shape == area.shape
                &&& p.origin_cell_id@ == cells[o].id@
                &&& p.anchor_cell_id@ == anchor_cell_id
                &&& cell_views(p.included_cells@) == inc
                &&& filtered_cell_views(p.filtered_cells@) == fil
                &&& texts(p.included_participant_ids@) == ids
                &&& participant_views(p.filtered_participants@) == shadowed(entities, fil)
                    + refused_on_cells(
                    entities,
                    team,
                    targets.team,
                    area.living_required,
                    inc,
                )
            }
        },
    }
}

/// An area projection exists only for an action with an area, a known
/// actor and a known anchor cell within the action's range and, where the
/// action requires line of effect, with a clear line of effect from the
/// actor's cell to the anchor; it then includes its anchor cell, and its
/// target count lies within the action's bounds.
pub proof fn lemma_area_projection_law(
    board: &RpgBoardSetup,
    entities: Seq<RpgEntityState>,
    actor_id: Seq<char>,
    targets: RpgTargetSelector,
    anchor_cell_id: Seq<char>,
    r: Option<RpgAreaProjection>,
)
    requires
        projection_matches(board, entities, actor_id, targets, anchor_cell_id, r),
    ensures
        targets.area is None || entity_index(entities, actor_id) < 0 || last_index_where(
            board.cells@,
            cell_named(anchor_cell_id),
        ) < 0 ==> r is None,
        r matches Some(p) ==> {
            let a = entity_index(entities, actor_id);
            let k = last_index_where(board.cells@, cell_named(anchor_cell_id));
            let actor_pos = entities[a].position;
            let anchor_pos = board.cells@[k].position;
            let raw = abs_int(actor_pos.x - anchor_pos.x) + abs_int(actor_pos.y - anchor_pos.y);
            &&& targets.area is Some
            &&& a >= 0
            &&& k >= 0
            &&& (if raw > u32::MAX { u32::MAX as int } else { raw }) <= targets.maximum_range
            &&& exists|j: int|
                0 <= j < p.included_cells@.len() && (#[trigger] p.included_cells@[j]).id@
                    == anchor_cell_id
            &&& targets.area->Some_0.minimum_targets <= p.included_participant_ids@.len()
                <= targets.maximum_targets
            &&& targets.line_of_effect == RpgLineOfEffectRequirement::Required ==> {
                &&& last_cell_index(board.cells@, actor_pos) >= 0
                &&& line_of_effect_reason(board.cells@, actor_pos, anchor_pos) is None
            }
        },
{
    if let Some(p) = r {
        let (a, k, o, pts) = area_setup(board, entities, actor_id, targets, anchor_cell_id)->Some_0;
        let area = targets.area->Some_0;
        let cells = board.cells@;
        let origin_pos = cells[last_index_where(cells, cell_named(cells[o].id@))].position;
        let loe = targets.line_of_effect == RpgLineOfEffectRequirement::Required;
        let inc = included_points(board, origin_pos, loe, pts);
        let j = choose|j: int| 0 <= j < inc.len() && (#[trigger] inc[j]).0 == anchor_cell_id;
        assert(cell_views(p.included_cells@)[j] == inc[j]);
        assert(p.included_cells@[j].id@ == anchor_cell_id);
        assert(texts(p.included_participant_ids@).len() == p.included_participant_ids@.len());
    }
}

/// The rank of a cell around a centre: its distance, then its row and column
/// (compared by `point_before`).
pub open spec fn area_rank(cx: int, cy: int, q: GridPosition) -> AreaPoint {
    (manhattan(cx, cy, q.x as int, q.y as int), q.x as int, q.y as int)
}

/// The centre an area's candidate cells are ranked around: the anchor cell
/// for a diamond, the actor for a line.
pub open spec fn area_center(
    board: &RpgBoardSetup,
    entities: Seq<RpgEntityState>,
    actor_id: Seq<char>,
    targets: RpgTargetSelector,
    anchor_cell_id: Seq<char>,
) -> GridPosition {
    match targets.area->Some_0.shape {
        RpgAreaShape::Diamond { .. } => board.cells@[last_index_where(
            board.cells@,
            cell_named(anchor_cell_id),
        )].position,
        RpgAreaShape::OrthogonalLine { .. } => entities[entity_index(entities, actor_id)].position,
    }
}

proof fn lemma_included_order(
    board: &RpgBoardSetup,
    origin: GridPosition,
    loe: bool,
    cands: Seq<AreaPoint>,
    cx: int,
    cy: int,
)
    requires
        forall|i: int, j: int| 0 <= i < j < cands.len() ==> point_before(#[trigger] cands[i], #[trigger] cands[j]),
        forall|i: int| 0 <= i < cands.len() ==> (#[trigger] cands[i]).0 == manhattan(cx, cy, cands[i].1, cands[i].2),
    ensures
        forall|i: int|
            0 <= i < included_points(board, origin, loe, cands).len() ==> exists|k: int|
                0 <= k < cands.len() && #[trigger] cands[k] == area_rank(
                    cx,
                    cy,
                    (#[trigger] included_points(board, origin, loe, cands)[i]).1,
                ),
        forall|i: int, j: int|
            0 <= i < j < included_points(board, origin, loe, cands).len() ==> point_before(
                area_rank(cx, cy, (#[trigger] included_points(board, origin, loe, cands)[i]).1),
                area_rank(cx, cy, (#[trigger] included_points(board, origin, loe, cands)[j]).1),
            ),
    decreases cands.len(),
{
    if cands.len() > 0 {
        let prefix = cands.drop_last();
        lemma_included_order(board, origin, loe, prefix, cx, cy);
        let prev = included_points(board, origin, loe, prefix);
        let inc = included_points(board, origin, loe, cands);
        let c = cands.last();
        let n = cands.len() - 1;
        if point_included(board, origin, loe, c) {
            let p = coords_position(c.1, c.2);
            assert(area_rank(cx, cy, p) == c);
            assert(inc.len() == prev.len() + 1);
            assert forall|i: int| 0 <= i < inc.len() implies exists|k: int|
                0 <= k < cands.len() && #[trigger] cands[k] == area_rank(cx, cy, (#[trigger] inc[i]).1) by {
                if i < prev.len() {
                    assert(inc[i] == prev[i]);
                    let k = choose|k: int| 0 <= k < prefix.len() && #[trigger] prefix[k] == area_rank(cx, cy, prev[i].1);
                    assert(cands[k] == prefix[k]);
                } else {
                    assert(inc[i].1 == p);
                    assert(cands[n] == c);
                }
            }
            assert forall|i: int, j: int| 0 <= i < j < inc.len() implies point_before(
                area_rank(cx, cy, (#[trigger] inc[i]).1),
                area_rank(cx, cy, (#[trigger] inc[j]).1),
            ) by {
                assert(inc[i] == prev[i]);
                if j < prev.len() {
                    assert(inc[j] == prev[j]);
                } else {
                    let k = choose|k: int| 0 <= k < prefix.len() && #[trigger] prefix[k] == area_rank(cx, cy, prev[i].1);
                    assert(cands[k] == prefix[k]);
                    assert(point_before(cands[k], cands[n]));
                    assert(inc[j].1 == p);
                }
            }
        } else {
            assert(inc == prev);
            assert forall|i: int| 0 <= i < inc.len() implies exists|k: int|
                0 <= k < cands.len() && #[trigger] cands[k] == area_rank(cx, cy, (#[trigger] inc[i]).1) by {
                let k = choose|k: int| 0 <= k < prefix.len() && #[trigger] prefix[k] == area_rank(cx, cy, prev[i].1);
                assert(cands[k] == prefix[k]);
            }
        }
    }
}

/// The included cells of an area projection come in strictly increasing
/// rank around the area's centre: nearest first, then by row and column.
pub proof fn lemma_area_projection_order(
    board: &RpgBoardSetup,
    entities: Seq<RpgEntityState>,
    actor_id: Seq<char>,
    targets: RpgTargetSelector,
    anchor_cell_id: Seq<char>,
    p: RpgAreaProjection,
)
    requires
        projection_matches(board, entities, actor_id, targets, anchor_cell_id, Some(p)),
    ensures
        ({
            let c = area_center(board, entities, actor_id, targets, anchor_cell_id);
            forall|i: int, j: int|
                0 <= i < j < p.included_cells@.len() ==> point_before(
                    area_rank(c.x as int, c.y as int, (#[trigger] p.included_cells@[i]).position),
                    area_rank(c.x as int, c.y as int, (#[trigger] p.included_cells@[j]).position),
                )
        }),
{
    let (a, k, o, pts) = area_setup(board, entities, actor_id, targets, anchor_cell_id)->Some_0;
    let cells = board.cells@;
    let origin_pos = cells[last_index_where(cells, cell_named(cells[o].id@))].position;
    let loe = targets.line_of_effect == RpgLineOfEffectRequirement::Required;
    let inc = included_points(board, origin_pos, loe, pts);
    let c = area_center(board, entities, actor_id, targets, anchor_cell_id);
    let cx = c.x as int;
    let cy = c.y as int;
    match targets.area->Some_0.shape {
        RpgAreaShape::Diamond { radius } => {
            lemma_diamond_points_sorted(cx, cy, radius as int);
        },
        RpgAreaShape::OrthogonalLine { length } => {
            let actor_pos = entities[a].position;
            let anchor_pos = cells[k].position;
            let sx = sign_int(anchor_pos.x - actor_pos.x);
            let sy = sign_int(anchor_pos.y - actor_pos.y);
            assert(pts == line_points(cx, cy, sx, sy, length as int));
            assert forall|i: int| 0 <= i < pts.len() implies (#[trigger] pts[i]).0 == manhattan(cx, cy, pts[i].1, pts[i].2) by {
                assert(pts[i] == (i + 1, cx + sx * (i + 1), cy + sy * (i + 1)));
                if sx == 0 {
                    assert(sx * (i + 1) == 0);
                } else if sx == 1 {
                    assert(sx * (i + 1) == i + 1);
                } else {
                    assert(sx * (i + 1) == -(i + 1));
                }
                if sy == 0 {
                    assert(sy * (i + 1) == 0);
                } else if sy == 1 {
                    assert(sy * (i + 1) == i + 1);
                } else {
                    assert(sy * (i + 1) == -(i + 1));
                }
            }
            assert forall|i: int, j: int| 0 <= i < j < pts.len() implies point_before(#[trigger] pts[i], #[trigger] pts[j]) by {
                assert(pts[i].0 == i + 1);
                assert(pts[j].0 == j + 1);
            }
        },
    }
    lemma_included_order(board, origin_pos, loe, pts, cx, cy);
    assert forall|i: int, j: int|
        0 <= i < j < p.included_cells@.len() implies point_before(
        area_rank(cx, cy, (#[trigger] p.included_cells@[i]).position),
        area_rank(cx, cy, (#[trigger] p.included_cells@[j]).position),
    ) by {
        assert(cell_views(p.included_cells@)[i] == inc[i]);
        assert(cell_views(p.included_cells@)[j] == inc[j]);
    }
}

spec fn ids_sorted(entities: Seq<RpgEntityState>, s: Seq<int>) -> bool {
    forall|a: int, b: int|
        0 <= a < b < s.len() ==> text_before(
            entities[#[trigger] s[a]].id@,
            entities[#[trigger] s[b]].id@,
        )
}

spec fn insert_by_id(entities: Seq<RpgEntityState>, s: Seq<int>, e: int) -> Seq<int>
    decreases s.len(),
{
    if s.len() == 0 {
        seq![e]
    } else if text_before(entities[s.last()].id@, entities[e].id@) {
        s.push(e)
    } else {
        insert_by_id(entities, s.drop_last(), e).push(s.last())
    }
}

proof fn lemma_insert_by_id(entities: Seq<RpgEntityState>, s: Seq<int>, e: int)
    requires
        ids_sorted(entities, s),
        forall|k: int| 0 <= k < s.len() ==> entities[#[trigger] s[k]].id@ != entities[e].id@,
    ensures
        ids_sorted(entities, insert_by_id(entities, s, e)),
        forall|x: int| #[trigger] insert_by_id(entities, s, e).contains(x) <==> (s.contains(x) || x == e),
    decreases s.len(),
{
    let r = insert_by_id(entities, s, e);
    if s.len() == 0 {
        assert(r =~= seq![e]);
        assert(r[0] == e);
    } else {
        let l = s.last();
        let n = s.len() - 1;
        lemma_text_order(entities[l].id@, entities[e].id@, entities[l].id@);
        if text_before(entities[l].id@, entities[e].id@) {
            assert forall|a: int, b: int| 0 <= a < b < r.len() implies text_before(
                entities[#[trigger] r[a]].id@,
                entities[#[trigger] r[b]].id@,
            ) by {
                if b == n + 1 {
                    if a < n {
                        lemma_text_order(entities[s[a]].id@, entities[l].id@, entities[e].id@);
                    }
                }
            }
            assert forall|x: int| r.contains(x) <==> (s.contains(x) || x == e) by {
                if r.contains(x) {
                    let i = choose|i: int| 0 <= i < r.len() && r[i] == x;
                    if i < s.len() {
                        assert(s[i] == x);
                    }
                }
                if s.contains(x) {
                    let i = choose|i: int| 0 <= i < s.len() && s[i] == x;
                    assert(r[i] == x);
                }
                if x == e {
                    assert(r[n + 1] == e);
                }
            }
        } else {
            let pre = s.drop_last();
            assert(ids_sorted(entities, pre)) by {
                assert forall|a: int, b: int| 0 <= a < b < pre.len() implies text_before(
                    entities[#[trigger] pre[a]].id@,
                    entities[#[trigger] pre[b]].id@,
                ) by {
                    assert(pre[a] == s[a] && pre[b] == s[b]);
                }
            }
            assert forall|k: int| 0 <= k < pre.len() implies entities[#[trigger] pre[k]].id@
                != entities[e].id@ by {
                assert(pre[k] == s[k]);
            }
            lemma_insert_by_id(entities, pre, e);
            let q = insert_by_id(entities, pre, e);
            assert(r == q.push(l));
            assert(entities[l].id@ != entities[e].id@) by {
                assert(s[n] == l);
            }
            assert(text_before(entities[e].id@, entities[l].id@));
            assert forall|a: int, b: int| 0 <= a < b < r.len() implies text_before(
                entities[#[trigger] r[a]].id@,
                entities[#[trigger] r[b]].id@,
            ) by {
                if b == r.len() - 1 {
                    assert(r[b] == l);
                    assert(r[a] == q[a]);
                    assert(q.contains(q[a]));
                    if q[a] != e {
                        assert(pre.contains(q[a]));
                        let i = choose|i: int| 0 <= i < pre.len() && pre[i] == q[a];
                        assert(s[i] == q[a]);
                        assert(s[n] == l);
                    }
                } else {
                    assert(r[a] == q[a] && r[b] == q[b]);
                }
            }
            assert forall|x: int| r.contains(x) <==> (s.contains(x) || x == e) by {
                if r.contains(x) {
                    let i = choose|i: int| 0 <= i < r.len() && r[i] == x;
                    if i < q.len() {
                        assert(q[i] == x);
                        assert(q.contains(x));
                        if x != e {
                            assert(pre.contains(x));
                            let j = choose|j: int| 0 <= j < pre.len() && pre[j] == x;
                            assert(pre[j] == s[j]);
                            assert(s[j] == x);
                            assert(s.contains(x));
                        }
                    } else {
                        assert(s[n] == x);
                    }
                }
                if s.contains(x) {
                    let i = choose|i: int| 0 <= i < s.len() && s[i] == x;
                    if i < n {
                        assert(pre[i] == x);
                        assert(pre.contains(x));
                        assert(q.contains(x));
                        let j = choose|j: int| 0 <= j < q.len() && q[j] == x;
                        assert(r[j] == x);
                    } else {
                        assert(r[r.len() - 1] == x);
                    }
                }
                if x == e {
                    assert(q.contains(e));
                    let j = choose|j: int| 0 <= j < q.len() && q[j] == e;
                    assert(r[j] == e);
                }
            }
        }
    }
}

spec fn listing_upto(entities: Seq<RpgEntityState>, p: GridPosition, n: int) -> Seq<int>
    decreases n,
{
    if n <= 0 {
        Seq::empty()
    } else {
        let s = listing_upto(entities, p, n - 1);
        if entities[n - 1].position == p {
            insert_by_id(entities, s, n - 1)
        } else {
            s
        }
    }
}

proof fn lemma_listing_upto(entities: Seq<RpgEntityState>, p: GridPosition, n: int)
    requires
        identities_distinct(entities),
        0 <= n <= entities.len(),
    ensures
        ids_sorted(entities, listing_upto(entities, p, n)),
        forall|x: int|
            #[trigger] listing_upto(entities, p, n).contains(x) <==> (0 <= x < n && entities[x].position == p),
    decreases n,
{
    if n > 0 {
        lemma_listing_upto(entities, p, n - 1);
        let s = listing_upto(entities, p, n - 1);
        let r = listing_upto(entities, p, n);
        if entities[n - 1].position == p {
            assert forall|k: int| 0 <= k < s.len() implies entities[#[trigger] s[k]].id@
                != entities[n - 1].id@ by {
                assert(s.contains(s[k]));
            }
            lemma_insert_by_id(entities, s, n - 1);
            assert(r == insert_by_id(entities, s, n - 1));
        } else {
            assert(r == s);
        }
        assert forall|x: int| r.contains(x) <==> (0 <= x < n && entities[x].position == p) by {
            assert(s.contains(x) <==> (0 <= x < n - 1 && entities[x].position == p));
            if entities[n - 1].position == p {
                assert(insert_by_id(entities, s, n - 1).contains(x) <==> (s.contains(x) || x == n - 1));
            }
        }
    }
}

/// With distinct identities, every position's occupants are listed.
proof fn lemma_occupants_listed(entities: Seq<RpgEntityState>, p: GridPosition)
    requires
        identities_distinct(entities),
    ensures
        lists_occupants(entities, p, occupants(entities, p)),
{
    lemma_listing_upto(entities, p, entities.len() as int);
    let s = listing_upto(entities, p, entities.len() as int);
    assert forall|k: int| 0 <= k < s.len() implies 0 <= #[trigger] s[k] < entities.len()
        && entities[s[k]].position == p by {
        assert(s.contains(s[k]));
    }
    assert(lists_occupants(entities, p, s));
}

/// `e` carries the identity `id`.
pub open spec fn entity_named(e: RpgEntityState, id: Seq<char>) -> bool {
    e.id@ == id
}

/// Some entity at `q` with identity `id` passes the occupant rules.
spec fn admitted_at(
    entities: Seq<RpgEntityState>,
    actor_team: Seq<char>,
    team: RpgTeamConstraint,
    living_required: bool,
    id: Seq<char>,
    q: GridPosition,
) -> bool {
    exists|e: int|
        0 <= e < entities.len() && entity_named(#[trigger] entities[e], id) && entities[e].position
            == q && occupant_refusal(entities[e], actor_team, team, living_required) is None
}

/// Some entity with identity `id` stands on one of `cells` and passes the
/// occupant rules.
spec fn admitted_on(
    entities: Seq<RpgEntityState>,
    actor_team: Seq<char>,
    team: RpgTeamConstraint,
    living_required: bool,
    id: Seq<char>,
    cells: Seq<(Seq<char>, GridPosition)>,
) -> bool {
    exists|j: int|
        0 <= j < cells.len() && admitted_at(
            entities,
            actor_team,
            team,
            living_required,
            id,
            (#[trigger] cells[j]).1,
        )
}

proof fn lemma_admitted_from(
    entities: Seq<RpgEntityState>,
    actor_team: Seq<char>,
    team: RpgTeamConstraint,
    living_required: bool,
    occ: Seq<int>,
    q: GridPosition,
)
    requires
        forall|k: int| 0 <= k < occ.len() ==> 0 <= #[trigger] occ[k] < entities.len() && entities[occ[k]].position == q,
    ensures
        forall|i: int|
            0 <= i < admitted(entities, actor_team, team, living_required, occ).len() ==> admitted_at(
                entities,
                actor_team,
                team,
                living_required,
                #[trigger] admitted(entities, actor_team, team, living_required, occ)[i],
                q,
            ),
    decreases occ.len(),
{
    if occ.len() > 0 {
        let pre = occ.drop_last();
        assert forall|k: int| 0 <= k < pre.len() implies 0 <= #[trigger] pre[k] < entities.len()
            && entities[pre[k]].position == q by {
            assert(pre[k] == occ[k]);
        }
        lemma_admitted_from(entities, actor_team, team, living_required, pre, q);
        let head = admitted(entities, actor_team, team, living_required, pre);
        let last = occ[occ.len() - 1];
        assert(0 <= last < entities.len() && entities[last].position == q);
        let all = admitted(entities, actor_team, team, living_required, occ);
        let extra = if occupant_refusal(entities[last], actor_team, team, living_required) is None {
            seq![entities[last].id@]
        } else {
            Seq::empty()
        };
        assert(occ.last() == last);
        assert(all == head + extra);
        assert forall|i: int| 0 <= i < all.len() implies admitted_at(
            entities,
            actor_team,
            team,
            living_required,
            #[trigger] all[i],
            q,
        ) by {
            if i < head.len() {
                assert(all[i] == head[i]);
                assert(admitted_at(entities, actor_team, team, living_required, head[i], q));
            } else {
                assert(extra.len() == 1);
                assert(all[i] == extra[0]);
                assert(entity_named(entities[last], all[i]));
            }
        }
    }
}

proof fn lemma_admitted_members(
    entities: Seq<RpgEntityState>,
    actor_team: Seq<char>,
    team: RpgTeamConstraint,
    living_required: bool,
    cells: Seq<(Seq<char>, GridPosition)>,
)
    requires
        identities_distinct(entities),
    ensures
        forall|i: int|
            0 <= i < admitted_on_cells(entities, actor_team, team, living_required, cells).len()
                ==> admitted_on(
                entities,
                actor_team,
                team,
                living_required,
                #[trigger] admitted_on_cells(entities, actor_team, team, living_required, cells)[i],
                cells,
            ),
    decreases cells.len(),
{
    if cells.len() > 0 {
        let pre = cells.drop_last();
        lemma_admitted_members(entities, actor_team, team, living_required, pre);
        let head = admitted_on_cells(entities, actor_team, team, living_required, pre);
        let n = cells.len() - 1;
        let q = cells[n].1;
        let occ = occupants(entities, q);
        lemma_occupants_listed(entities, q);
        lemma_admitted_from(entities, actor_team, team, living_required, occ, q);
        let tail = admitted(entities, actor_team, team, living_required, occ);
        let all = admitted_on_cells(entities, actor_team, team, living_required, cells);
        assert(all == head + tail);
        assert forall|i: int| 0 <= i < all.len() implies admitted_on(
            entities,
            actor_team,
            team,
            living_required,
            #[trigger] all[i],
            cells,
        ) by {
            if i < head.len() {
                assert(all[i] == head[i]);
                assert(admitted_on(entities, actor_team, team, living_required, head[i], pre));
                let j = choose|j: int|
                    0 <= j < pre.len() && admitted_at(
                        entities,
                        actor_team,
                        team,
                        living_required,
                        head[i],
                        (#[trigger] pre[j]).1,
                    );
                assert(cells[j] == pre[j]);
            } else {
                assert(all[i] == tail[i - head.len()]);
                assert(admitted_at(entities, actor_team, team, living_required, tail[i - head.len()], q));
                assert(cells[n].1 == q);
            }
        }
    }
}

/// Each participant an area projection targets stands on one of its
/// included cells and passes the action's team and (where required)
/// vitality rules.
pub proof fn lemma_area_projection_targets(
    board: &RpgBoardSetup,
    entities: Seq<RpgEntityState>,
    actor_id: Seq<char>,
    targets: RpgTargetSelector,
    anchor_cell_id: Seq<char>,
    p: RpgAreaProjection,
)
    requires
        identities_distinct(entities),
        projection_matches(board, entities, actor_id, targets, anchor_cell_id, Some(p)),
    ensures
        forall|i: int|
            0 <= i < p.included_participant_ids@.len() ==> exists|e: int, j: int|
                0 <= e < entities.len() && 0 <= j < p.included_cells@.len() && entity_named(
                    #[trigger] entities[e],
                    (#[trigger] p.included_participant_ids@[i])@,
                ) && entities[e].position == (#[trigger] p.included_cells@[j]).position
                    && occupant_refusal(
                    entities[e],
                    entities[entity_index(entities, actor_id)].team_id@,
                    targets.team,
                    targets.area->Some_0.living_required,
                ) is None,
{
    let (a, k, o, pts) = area_setup(board, entities, actor_id, targets, anchor_cell_id)->Some_0;
    let area = targets.area->Some_0;
    let cells = board.cells@;
    let origin_pos = cells[last_index_where(cells, cell_named(cells[o].id@))].position;
    let loe = targets.line_of_effect == RpgLineOfEffectRequirement::Required;
    let inc = included_points(board, origin_pos, loe, pts);
    let team = entities[a].team_id@;
    let ids = admitted_on_cells(entities, team, targets.team, area.living_required, inc);
    lemma_admitted_members(entities, team, targets.team, area.living_required, inc);
    assert forall|i: int| 0 <= i < p.included_participant_ids@.len() implies exists|e: int, j: int|
        0 <= e < entities.len() && 0 <= j < p.included_cells@.len() && entity_named(
            #[trigger] entities[e],
            (#[trigger] p.included_participant_ids@[i])@,
        ) && entities[e].position == (#[trigger] p.included_cells@[j]).position && occupant_refusal(
            entities[e],
            team,
            targets.team,
            area.living_required,
        ) is None by {
        assert(texts(p.included_participant_ids@)[i] == ids[i]);
        assert(admitted_on(entities, team, targets.team, area.living_required, ids[i], inc));
        let j = choose|j: int|
            0 <= j < inc.len() && admitted_at(
                entities,
                team,
                targets.team,
                area.living_required,
                ids[i],
                (#[trigger] inc[j]).1,
            );
        let e = choose|e: int|
            0 <= e < entities.len() && entity_named(#[trigger] entities[e], ids[i])
                && entities[e].position == inc[j].1 && occupant_refusal(
                entities[e],
                team,
                targets.team,
                area.living_required,
            ) is None;
        assert(cell_views(p.included_cells@)[j] == inc[j]);
        assert(p.included_cells@[j].position == inc[j].1);
        assert(entity_named(entities[e], p.included_participant_ids@[i]@));
        assert(entities[e].id@ == p.included_participant_ids@[i]@);
        assert(entities[e].position == p.included_cells@[j].position);
    }
}

proof fn lemma_admitted_contains(
    entities: Seq<RpgEntityState>,
    actor_team: Seq<char>,
    team: RpgTeamConstraint,
    living_required: bool,
    occ: Seq<int>,
    e: int,
)
    requires
        occ.contains(e),
        occupant_refusal(entities[e], actor_team, team, living_required) is None,
    ensures
        admitted(entities, actor_team, team, living_required, occ).contains(entities[e].id@),
    decreases occ.len(),
{
    let pre = occ.drop_last();
    let head = admitted(entities, actor_team, team, living_required, pre);
    let all = admitted(entities, actor_team, team, living_required, occ);
    if occ.last() == e {
        assert(all == head + seq![entities[e].id@]);
        assert(all[head.len() as int] == entities[e].id@);
    } else {
        let k = choose|k: int| 0 <= k < occ.len() && occ[k] == e;
        assert(k < occ.len() - 1);
        assert(pre[k] == e);
        lemma_admitted_contains(entities, actor_team, team, living_required, pre, e);
        let n = choose|n: int| 0 <= n < head.len() && head[n] == entities[e].id@;
        assert(all[n] == head[n]);
    }
}

proof fn lemma_admitted_on_cells_contains(
    entities: Seq<RpgEntityState>,
    actor_team: Seq<char>,
    team: RpgTeamConstraint,
    living_required: bool,
    cells: Seq<(Seq<char>, GridPosition)>,
    j: int,
    id: Seq<char>,
)
    requires
        0 <= j < cells.len(),
        admitted(entities, actor_team, team, living_required, occupants(entities, cells[j].1)).contains(id),
    ensures
        admitted_on_cells(entities, actor_team, team, living_required, cells).contains(id),
    decreases cells.len(),
{
    let pre = cells.drop_last();
    let head = admitted_on_cells(entities, actor_team, team, living_required, pre);
    let tail = admitted(entities, actor_team, team, living_required, occupants(entities, cells.last().1));
    let all = admitted_on_cells(entities, actor_team, team, living_required, cells);
    assert(all == head + tail);
    if j == cells.len() - 1 {
        let n = choose|n: int| 0 <= n < tail.len() && tail[n] == id;
        assert(all[head.len() + n] == id);
    } else {
        assert(pre[j] == cells[j]);
        lemma_admitted_on_cells_contains(entities, actor_team, team, living_required, pre, j, id);
        let n = choose|n: int| 0 <= n < head.len() && head[n] == id;
        assert(all[n] == head[n]);
    }
}

/// The team and vitality rules of an area projection, stated on the
/// participants themselves: every target stands on an included cell, is on
/// the actor's team when the action targets allies, on another team when it
/// targets hostiles, and has positive vitality when the area requires living
/// targets; and every participant standing on an included cell that meets
/// those rules is a target.
pub proof fn lemma_area_projection_team_rules(
    board: &RpgBoardSetup,
    entities: Seq<RpgEntityState>,
    actor_id: Seq<char>,
    targets: RpgTargetSelector,
    anchor_cell_id: Seq<char>,
    p: RpgAreaProjection,
)
    requires
        identities_distinct(entities),
        projection_matches(board, entities, actor_id, targets, anchor_cell_id, Some(p)),
    ensures
        forall|i: int|
                0 <= i < p.included_participant_ids@.len() ==> exists|e: int, j: int|
                    0 <= e < entities.len() && 0 <= j < p.included_cells@.len()
                        && (#[trigger] entities[e]).id@ == (#[trigger] p.included_participant_ids@[i])@
                        && entities[e].position == (#[trigger] p.included_cells@[j]).position
                        && (targets.team == RpgTeamConstraint::Ally ==> entities[e].team_id@ == entities[entity_index(entities, actor_id)].team_id@)
                        && (targets.team == RpgTeamConstraint::Hostile ==> entities[e].team_id@ != entities[entity_index(entities, actor_id)].team_id@)
                        && (targets.area->Some_0.living_required ==> entities[e].vitality.current > 0),
        forall|e: int, j: int|
                0 <= e < entities.len() && 0 <= j < p.included_cells@.len()
                    && (#[trigger] entities[e]).position == (#[trigger] p.included_cells@[j]).position
                    && (targets.team == RpgTeamConstraint::Ally ==> entities[e].team_id@ == entities[entity_index(entities, actor_id)].team_id@)
                    && (targets.team == RpgTeamConstraint::Hostile ==> entities[e].team_id@ != entities[entity_index(entities, actor_id)].team_id@)
                    && (targets.area->Some_0.living_required ==> entities[e].vitality.current > 0) ==> exists|i: int|
                    0 <= i < p.included_participant_ids@.len()
                        && (#[trigger] p.included_participant_ids@[i])@ == entities[e].id@,
{
    lemma_area_projection_targets(board, entities, actor_id, targets, anchor_cell_id, p);
    let (a, k, o, pts) = area_setup(board, entities, actor_id, targets, anchor_cell_id)->Some_0;
    let area = targets.area->Some_0;
    let cells = board.cells@;
    let origin_pos = cells[last_index_where(cells, cell_named(cells[o].id@))].position;
    let loe = targets.line_of_effect == RpgLineOfEffectRequirement::Required;
    let inc = included_points(board, origin_pos, loe, pts);
    let team = entities[a].team_id@;
    let living = area.living_required;
    let ids = admitted_on_cells(entities, team, targets.team, living, inc);
    assert(a == entity_index(entities, actor_id));
    assert forall|e: int, j: int|
        0 <= e < entities.len() && 0 <= j < p.included_cells@.len()
            && (#[trigger] entities[e]).position == (#[trigger] p.included_cells@[j]).position
            && (targets.team == RpgTeamConstraint::Ally ==> entities[e].team_id@ == team)
            && (targets.team == RpgTeamConstraint::Hostile ==> entities[e].team_id@ != team)
            && (living ==> entities[e].vitality.current > 0) implies exists|i: int|
            0 <= i < p.included_participant_ids@.len()
                && (#[trigger] p.included_participant_ids@[i])@ == entities[e].id@ by {
        assert(cell_views(p.included_cells@)[j] == inc[j]);
        let q = inc[j].1;
        assert(entities[e].position == q);
        lemma_occupants_listed(entities, q);
        let occ = occupants(entities, q);
        assert(occ.contains(e));
        assert(occupant_refusal(entities[e], team, targets.team, living) is None);
        lemma_admitted_contains(entities, team, targets.team, living, occ, e);
        lemma_admitted_on_cells_contains(entities, team, targets.team, living, inc, j, entities[e].id@);
        let n = choose|n: int| 0 <= n < ids.len() && ids[n] == entities[e].id@;
        assert(texts(p.included_participant_ids@)[n] == ids[n]);
        assert(p.included_participant_ids@[n]@ == entities[e].id@);
    }
    assert forall|i: int| 0 <= i < p.included_participant_ids@.len() implies exists|e: int, j: int|
        0 <= e < entities.len() && 0 <= j < p.included_cells@.len()
            && (#[trigger] entities[e]).id@ == (#[trigger] p.included_participant_ids@[i])@
            && entities[e].position == (#[trigger] p.included_cells@[j]).position
            && (targets.team == RpgTeamConstraint::Ally ==> entities[e].team_id@ == entities[entity_index(entities, actor_id)].team_id@)
            && (targets.team == RpgTeamConstraint::Hostile ==> entities[e].team_id@ != entities[entity_index(entities, actor_id)].team_id@)
            && (targets.area->Some_0.living_required ==> entities[e].vitality.current > 0) by {
        let (e, j) = choose|e: int, j: int|
            0 <= e < entities.len() && 0 <= j < p.included_cells@.len() && entity_named(
                #[trigger] entities[e],
                (#[trigger] p.included_participant_ids@[i])@,
            ) && entities[e].position == (#[trigger] p.included_cells@[j]).position
                && occupant_refusal(entities[e], team, targets.team, living) is None;
        assert(entity_named(entities[e], p.included_participant_ids@[i]@));
    }
}

/// The cells and participants an area action of `actor_id` anchored on cell
/// `anchor_cell_id` affects. The candidate cells come nearest first, then by
/// row and column; each is included when it is on the board, present and
/// (where required) in line of effect from the area's origin cell, and is
/// otherwise listed with why it was left out. Participants on included cells
/// are targets unless their team or (where required) vitality rules them
/// out; participants on cells cut off from line of effect are listed too.
/// There is no projection unless the anchor cell itself is included and the
/// number of targets is within the action's bounds.
pub fn area_projection(
    board: &RpgBoardSetup,
    entities: &Vec<RpgEntityState>,
    actor_id: &String,
    targets: &RpgTargetSelector,
    anchor_cell_id: &String,
) -> (r: Option<RpgAreaProjection>)
    requires
        identities_distinct(entities@),
    ensures
        projection_matches(board, entities@, actor_id@, *targets, anchor_cell_id@, r),
{
    let area = match targets.area {
        None => return None,
        Some(area) => area,
    };
    let a = match find_entity(entities, actor_id) {
        None => return None,
        Some(a) => a,
    };
    let k = match last_cell_named(&board.cells, anchor_cell_id) {
        None => return None,
        Some(k) => k,
    };
    let actor_pos = entities[a].position;
    let anchor_pos = board.cells[k].position;
    let range = u32_distance(actor_pos.x, anchor_pos.x).saturating_add(
        u32_distance(actor_pos.y, anchor_pos.y),
    );
    if range > targets.maximum_range {
        return None;
    }
    let loe = match targets.line_of_effect {
        RpgLineOfEffectRequirement::Required => true,
        RpgLineOfEffectRequirement::NotRequired => false,
    };
    let actor_cell = last_cell_at(&board.cells, actor_pos);
    if loe {
        match actor_cell {
            None => {
                return None;
            },
            Some(ac) => {
                proof {
                    crate::board::lemma_last_cell_index(board.cells@, actor_pos);
                }
                let projection = line_of_effect_projection(
                    board,
                    board.cells[ac].position,
                    anchor_pos,
                );
                if !projection.clear {
                    return None;
                }
            },
        }
    }
    let (o, cands) = match (area.origin, area.shape) {
        (RpgAreaOrigin::Anchor, RpgAreaShape::Diamond { radius }) => {
            proof {
                lemma_diamond_len(anchor_pos.x as int, anchor_pos.y as int, radius as int);
            }
            if radius > 10 {
                proof {
                    let r = radius as int;
                    assert(2 * r * r + 2 * r + 1 > 256) by (nonlinear_arith)
                        requires
                            r > 10,
                    ;
                }
                return None;
            }
            proof {
                let r = radius as int;
                assert(2 * r * r + 2 * r + 1 <= 256) by (nonlinear_arith)
                    requires
                        0 <= r <= 10,
                ;
            }
            (k, diamond_candidates(anchor_pos.x, anchor_pos.y, radius))
        },
        (RpgAreaOrigin::Actor, RpgAreaShape::OrthogonalLine { length }) => {
            let ac = match actor_cell {
                None => {
                    return None;
                },
                Some(ac) => ac,
            };
            let dx: i64 = anchor_pos.x as i64 - actor_pos.x as i64;
            let dy: i64 = anchor_pos.y as i64 - actor_pos.y as i64;
            if (dx == 0) == (dy == 0) {
                return None;
            }
            let steps: u64 = (if dx < 0 {
                -dx
            } else {
                dx
            }) as u64 + (if dy < 0 {
                -dy
            } else {
                dy
            }) as u64;
            if steps > length as u64 || length == 0 || length > 256 {
                return None;
            }
            let sx: i64 = if dx < 0 {
                -1
            } else if dx > 0 {
                1
            } else {
                0
            };
            let sy: i64 = if dy < 0 {
                -1
            } else if dy > 0 {
                1
            } else {
                0
            };
            (ac, line_candidates(actor_pos.x, actor_pos.y, sx, sy, length))
        },
        _ => {
            return None;
        },
    };
    let origin_index = match last_cell_named(&board.cells, &board.cells[o].id) {
        None => {
            proof {
                assert(cell_named(board.cells@[o as int].id@)(board.cells@[o as int]));
                crate::model::lemma_last_index_where(
                    board.cells@,
                    cell_named(board.cells@[o as int].id@),
                );
            }
            return None;
        },
        Some(x) => x,
    };
    let origin_pos = board.cells[origin_index].position;
    let (included_cells, filtered_cells) = classify_points(board, origin_pos, loe, &cands);
    let mut anchored = false;
    let mut j: usize = 0;
    while j < included_cells.len()
        invariant
            j <= included_cells@.len(),
            anchored == exists|q: int|
                0 <= q < j && (#[trigger] cell_views(included_cells@)[q]).0 == anchor_cell_id@,
        decreases included_cells.len() - j,
    {
        if included_cells[j].id == *anchor_cell_id {
            assert(cell_views(included_cells@)[j as int].0 == anchor_cell_id@);
            anchored = true;
        }
        j = j + 1;
    }
    if !anchored {
        return None;
    }
    let shadowed_list = shadowed_participants(entities, &filtered_cells);
    let (included_participant_ids, refused_list) = cell_participants(
        entities,
        &entities[a].team_id,
        targets.team,
        area.living_required,
        &included_cells,
    );
    if included_participant_ids.len() < area.minimum_targets as usize
        || included_participant_ids.len() > targets.maximum_targets as usize {
        return None;
    }
    let mut filtered_participants = shadowed_list;
    let mut refused_list = refused_list;
    let ghost first = participant_views(filtered_participants@);
    let ghost second = participant_views(refused_list@);
    filtered_participants.append(&mut refused_list);
    proof {
        assert(participant_views(filtered_participants@) =~= first + second);
    }
    let anchor_copy = anchor_cell_id.clone();
    Some(
        RpgAreaProjection {
            origin: area.origin,
            shape: area.shape,
            origin_cell_id: board.cells[o].id.clone(),
            anchor_cell_id: anchor_copy,
            included_cells,
            filtered_cells,
            included_participant_ids,
            filtered_participants,
        },
    )
}

// ---------------------------------------------------------------------------
// The order of diamond cells
// ---------------------------------------------------------------------------

/// `a` comes before `b` by distance, then row, then column.
pub open spec fn point_before(a: AreaPoint, b: AreaPoint) -> bool {
    ||| a.0 < b.0
    ||| (a.0 == b.0 && a.2 < b.2)
    ||| (a.0 == b.0 && a.2 == b.2 && a.1 < b.1)
}

pub open spec fn manhattan(ax: int, ay: int, x: int, y: int) -> int {
    abs_int(x - ax) + abs_int(y - ay)
}

proof fn lemma_ring_rows_order(ax: int, ay: int, d: int, k: int)
    requires
        d >= 0,
        0 <= k <= 2 * d + 1,
    ensures
        ({
            let rr = ring_rows(ax, ay, d, k);
            &&& forall|i: int|
                0 <= i < rr.len() ==> (#[trigger] rr[i]).0 == d && manhattan(ax, ay, rr[i].1, rr[i].2)
                    == d && ay - d <= rr[i].2 < ay - d + k
            &&& forall|i: int, j: int|
                0 <= i < j < rr.len() ==> point_before(#[trigger] rr[i], #[trigger] rr[j])
            &&& forall|x: int, y: int|
                manhattan(ax, ay, x, y) == d && ay - d <= y < ay - d + k ==> #[trigger] rr.contains(
                    (d, x, y),
                )
        }),
    decreases k,
{
    if k > 0 {
        lemma_ring_rows_order(ax, ay, d, k - 1);
        let prev = ring_rows(ax, ay, d, k - 1);
        let dy = -d + k - 1;
        let row = ring_row(ax, ay, d, dy);
        let rr = ring_rows(ax, ay, d, k);
        assert(rr == prev + row);
        let w = d - abs_int(dy);
        assert(w >= 0);
        assert forall|i: int|
            0 <= i < rr.len() implies (#[trigger] rr[i]).0 == d && manhattan(ax, ay, rr[i].1, rr[i].2)
                == d && ay - d <= rr[i].2 < ay - d + k by {
            if i < prev.len() {
                assert(rr[i] == prev[i]);
            } else {
                assert(rr[i] == row[i - prev.len()]);
            }
        }
        assert forall|i: int, j: int|
            0 <= i < j < rr.len() implies point_before(#[trigger] rr[i], #[trigger] rr[j]) by {
            if j < prev.len() {
                assert(rr[i] == prev[i] && rr[j] == prev[j]);
            } else if i < prev.len() {
                assert(rr[i] == prev[i] && rr[j] == row[j - prev.len()]);
                assert(prev[i].2 < ay - d + k - 1);
            } else {
                assert(rr[i] == row[i - prev.len()] && rr[j] == row[j - prev.len()]);
            }
        }
        assert forall|x: int, y: int|
            manhattan(ax, ay, x, y) == d && ay - d <= y < ay - d + k implies #[trigger] rr.contains(
            (d, x, y),
        ) by {
            if y < ay - d + k - 1 {
                assert(prev.contains((d, x, y)));
                let i = choose|i: int| 0 <= i < prev.len() && prev[i] == (d, x, y);
                assert(rr[i] == (d, x, y));
            } else {
                assert(y == ay + dy);
                assert(abs_int(x - ax) == w);
                if w == 0 {
                    assert(x == ax);
                    assert(rr[prev.len() as int] == (d, x, y));
                } else if x < ax {
                    assert(x == ax - w);
                    assert(rr[prev.len() as int] == (d, x, y));
                } else {
                    assert(x == ax + w);
                    assert(rr[prev.len() as int + 1] == (d, x, y));
                }
            }
        }
    }
}

/// The cells of a diamond come in strictly increasing (distance, row,
/// column) order, each at its distance from the centre, and every cell
/// within the radius is among them: the order the candidate cells of an
/// area are ranked in.
pub proof fn lemma_diamond_points_sorted(ax: int, ay: int, r: int)
    requires
        r >= 0,
    ensures
        ({
            let pts = diamond_points(ax, ay, r);
            &&& forall|i: int|
                0 <= i < pts.len() ==> (#[trigger] pts[i]).0 == manhattan(ax, ay, pts[i].1, pts[i].2)
                    && pts[i].0 <= r
            &&& forall|i: int, j: int|
                0 <= i < j < pts.len() ==> point_before(#[trigger] pts[i], #[trigger] pts[j])
            &&& forall|x: int, y: int|
                manhattan(ax, ay, x, y) <= r ==> #[trigger] pts.contains(
                    (manhattan(ax, ay, x, y), x, y),
                )
        }),
    decreases r,
{
    let pts = diamond_points(ax, ay, r);
    let ring = ring_rows(ax, ay, r, 2 * r + 1);
    lemma_ring_rows_order(ax, ay, r, 2 * r + 1);
    if r == 0 {
        assert(diamond_points(ax, ay, -1).len() == 0);
        assert(pts == diamond_points(ax, ay, -1) + ring);
        assert(pts =~= ring);
        assert forall|x: int, y: int|
            manhattan(ax, ay, x, y) <= r implies #[trigger] pts.contains(
            (manhattan(ax, ay, x, y), x, y),
        ) by {
            assert(ring.contains((0, x, y)));
        }
    } else {
        lemma_diamond_points_sorted(ax, ay, r - 1);
        let prev = diamond_points(ax, ay, r - 1);
        assert(pts == prev + ring);
        assert forall|i: int|
            0 <= i < pts.len() implies (#[trigger] pts[i]).0 == manhattan(ax, ay, pts[i].1, pts[i].2)
                && pts[i].0 <= r by {
            if i < prev.len() {
                assert(pts[i] == prev[i]);
            } else {
                assert(pts[i] == ring[i - prev.len()]);
            }
        }
        assert forall|i: int, j: int|
            0 <= i < j < pts.len() implies point_before(#[trigger] pts[i], #[trigger] pts[j]) by {
            if j < prev.len() {
                assert(pts[i] == prev[i] && pts[j] == prev[j]);
            } else if i < prev.len() {
                assert(pts[i] == prev[i] && pts[j] == ring[j - prev.len()]);
            } else {
                assert(pts[i] == ring[i - prev.len()] && pts[j] == ring[j - prev.len()]);
            }
        }
        assert forall|x: int, y: int|
            manhattan(ax, ay, x, y) <= r implies #[trigger] pts.contains(
            (manhattan(ax, ay, x, y), x, y),
        ) by {
            let m = manhattan(ax, ay, x, y);
            if m < r {
                assert(prev.contains((m, x, y)));
                let i = choose|i: int| 0 <= i < prev.len() && prev[i] == (m, x, y);
                assert(pts[i] == (m, x, y));
            } else {
                assert(ring.contains((r, x, y)));
                let i = choose|i: int| 0 <= i < ring.len() && ring[i] == (r, x, y);
                assert(pts[prev.len() as int + i] == (m, x, y));
            }
        }
    }
}

} // verus!
