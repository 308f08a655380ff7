use vstd::prelude::*;

use crate::board::{GridPosition, RpgBoardSetup, RpgCellSetup};
use crate::model::{
    entity_index, find_entity, first_index_where, lemma_first_index_is, rejection_text,
    resolution_rejection, RpgEntityState, RpgResolutionRejection,
};
use crate::movement::RpgCellPathView;
use crate::session::{refusal, RejectionText};
use crate::sight::{line_of_effect_blockers, line_of_effect_projection, line_of_effect_reason};
use crate::text::{decimal, indexed, indexed_path, join, join3, push_decimal, text, texts};

verus! {

/// What an action targets.
#[derive(Debug, Clone, Copy, PartialEq, Eq, Structural)]
pub enum RpgTargetKind {
    Participant,
    Cell,
    Area,
}

/// A selected cell with the position the proposer bound it to.
#[derive(Debug, Clone)]
pub struct RpgIntentCellTarget {
    pub id: String,
    pub position: GridPosition,
}

pub open spec fn board_cell_named(id: Seq<char>) -> spec_fn(RpgCellSetup) -> bool {
    |c: RpgCellSetup| c.id@ == id
}

/// The first board cell with an identity, or -1.
pub open spec fn board_cell(board: &RpgBoardSetup, id: Seq<char>) -> int {
    first_index_where(board.cells@, board_cell_named(id))
}

pub(crate) fn board_cell_of(board: &RpgBoardSetup, id: &String) -> (r: Option<usize>)
    ensures
        match r {
            Some(i) => i < board.cells@.len() && i as int == board_cell(board, id@),
            None => board_cell(board, id@) == -1,
        },
{
    let cells = &board.cells;
    let mut i: usize = 0;
    while i < cells.len()
        invariant
            cells@ == board.cells@,
            i <= cells@.len(),
            forall|q: int| 0 <= q < i ==> !board_cell_named(id@)(#[trigger] cells@[q]),
        decreases cells.len() - i,
    {
        if cells[i].id == *id {
            proof {
                lemma_first_index_is(cells@, board_cell_named(id@), i as int);
            }
            return Some(i);
        }
        i = i + 1;
    }
    proof {
        lemma_first_index_is(cells@, board_cell_named(id@), -1);
    }
    None
}

pub open spec fn cell_target_views(v: Seq<RpgIntentCellTarget>) -> Seq<(Seq<char>, GridPosition)> {
    v.map_values(|c: RpgIntentCellTarget| (c.id@, c.position))
}

/// The cells a proposal of a cell-target action selects, with their board
/// positions; proposals of other actions bind no cells.
pub open spec fn proposal_cells(
    board: &RpgBoardSetup,
    kind: Option<RpgTargetKind>,
    target_ids: Seq<String>,
) -> Seq<(Seq<char>, GridPosition)>
    decreases target_ids.len(),
{
    if kind != Some(RpgTargetKind::Cell) || target_ids.len() == 0 {
        Seq::empty()
    } else {
        let prev = proposal_cells(board, kind, target_ids.drop_last());
        let c = board_cell(board, target_ids.last()@);
        if c < 0 {
            prev
        } else {
            prev.push((board.cells@[c].id@, board.cells@[c].position))
        }
    }
}

/// Binds the selected cells of a cell-target proposal to their board
/// positions, skipping identities the board does not have.
pub fn proposal_cell_targets(
    board: &RpgBoardSetup,
    kind: Option<RpgTargetKind>,
    target_ids: &Vec<String>,
) -> (r: Vec<RpgIntentCellTarget>)
    ensures
        cell_target_views(r@) == proposal_cells(board, kind, target_ids@),
{
    let mut out: Vec<RpgIntentCellTarget> = Vec::new();
    match kind {
        Some(RpgTargetKind::Cell) => {},
        _ => {
            assert(cell_target_views(out@) =~= proposal_cells(board, kind, target_ids@));
            return out;
        },
    }
    let mut i: usize = 0;
    while i < target_ids.len()
        invariant
            kind == Some(RpgTargetKind::Cell),
            i <= target_ids@.len(),
            cell_target_views(out@) == proposal_cells(board, kind, target_ids@.take(i as int)),
        decreases target_ids.len() - i,
    {
        proof {
            assert(target_ids@.take(i + 1).drop_last() =~= target_ids@.take(i as int));
        }
        let ghost before = out@;
        match board_cell_of(board, &target_ids[i]) {
            None => {},
            Some(c) => {
                out.push(
                    RpgIntentCellTarget {
                        id: board.cells[c].id.clone(),
                        position: board.cells[c].position,
                    },
                );
                assert(cell_target_views(out@) =~= cell_target_views(before).push(
                    (board.cells@[c as int].id@, board.cells@[c as int].position),
                ));
            },
        }
        i = i + 1;
    }
    proof {
        assert(target_ids@.take(i as int) =~= target_ids@);
    }
    out
}

pub open spec fn binding_named(id: Seq<char>) -> spec_fn(RpgIntentCellTarget) -> bool {
    |b: RpgIntentCellTarget| b.id@ == id
}

/// For each selected cell of a cell-target intent, in order, the first
/// binding for it (targets without a binding are skipped).
pub open spec fn matched_bindings(
    target_ids: Seq<String>,
    cell_targets: Seq<RpgIntentCellTarget>,
) -> Seq<RpgIntentCellTarget>
    decreases target_ids.len(),
{
    if target_ids.len() == 0 {
        Seq::empty()
    } else {
        let prev = matched_bindings(target_ids.drop_last(), cell_targets);
        let b = first_index_where(cell_targets, binding_named(target_ids.last()@));
        if b < 0 {
            prev
        } else {
            prev.push(cell_targets[b])
        }
    }
}

/// A binding is wrong when the board has no cell with its identity or the
/// first such cell stands elsewhere.
pub open spec fn binding_wrong(board: &RpgBoardSetup) -> spec_fn(RpgIntentCellTarget) -> bool {
    |b: RpgIntentCellTarget|
        board_cell(board, b.id@) < 0 || board.cells@[board_cell(board, b.id@)].position != b.position
}

/// Why an intent's cell bindings are refused: a participant-target action
/// with bindings, a cell-target action with a selected cell left unbound,
/// or (in binding order) a binding to an unknown cell or a wrong position.
pub open spec fn cell_binding_refusal(
    board: &RpgBoardSetup,
    kind: Option<RpgTargetKind>,
    target_ids: Seq<String>,
    cell_targets: Seq<RpgIntentCellTarget>,
) -> Option<RejectionText> {
    let bindings = if kind == Some(RpgTargetKind::Cell) {
        matched_bindings(target_ids, cell_targets)
    } else {
        cell_targets
    };
    let w = first_index_where(bindings, binding_wrong(board));
    if kind is None {
        None
    } else if kind == Some(RpgTargetKind::Participant) {
        if cell_targets.len() > 0 {
            Some(
                refusal(
                    "RPG_INTENT_CELL_BINDING_UNEXPECTED"@,
                    "$.command.intent.cellTargets"@,
                    "participant-target actions cannot include cell bindings"@,
                ),
            )
        } else {
            None
        }
    } else if kind == Some(RpgTargetKind::Cell) && bindings.len() != target_ids.len() {
        Some(
            refusal(
                "RPG_INTENT_CELL_BINDING_MISSING"@,
                "$.command.intent.cellTargets"@,
                "every selected cell requires one authoritative position binding"@,
            ),
        )
    } else if w < 0 {
        None
    } else if board_cell(board, bindings[w].id@) < 0 {
        Some(
            refusal(
                "RPG_INTENT_CELL_UNKNOWN"@,
                indexed("$.command.intent.cellTargets"@, w as nat, ".id"@),
                "unknown encounter cell "@ + bindings[w].id@,
            ),
        )
    } else {
        Some(
            refusal(
                "RPG_INTENT_CELL_BINDING_MISMATCH"@,
                indexed("$.command.intent.cellTargets"@, w as nat, ".position"@),
                "selected cell "@ + bindings[w].id@ + " does not match the encounter board"@,
            ),
        )
    }
}

fn first_binding(cell_targets: &Vec<RpgIntentCellTarget>, id: &String) -> (r: Option<usize>)
    ensures
        match r {
            Some(b) => b < cell_targets@.len() && b as int == first_index_where(
                cell_targets@,
                binding_named(id@),
            ),
            None => first_index_where(cell_targets@, binding_named(id@)) == -1,
        },
{
    let mut b: usize = 0;
    while b < cell_targets.len()
        invariant
            b <= cell_targets@.len(),
            forall|q: int| 0 <= q < b ==> !binding_named(id@)(#[trigger] cell_targets@[q]),
        decreases cell_targets.len() - b,
    {
        if cell_targets[b].id == *id {
            proof {
                lemma_first_index_is(cell_targets@, binding_named(id@), b as int);
            }
            return Some(b);
        }
        b = b + 1;
    }
    proof {
        lemma_first_index_is(cell_targets@, binding_named(id@), -1);
    }
    None
}

/// Checks an intent's cell bindings against the board.
pub fn cell_binding_rejection(
    board: &RpgBoardSetup,
    kind: Option<RpgTargetKind>,
    target_ids: &Vec<String>,
    cell_targets: &Vec<RpgIntentCellTarget>,
) -> (r: Option<RpgResolutionRejection>)
    ensures
        match r {
            None => cell_binding_refusal(board, kind, target_ids@, cell_targets@) is None,
            Some(x) => cell_binding_refusal(board, kind, target_ids@, cell_targets@) == Some(
                rejection_text(x),
            ),
        },
{
    let k = match kind {
        None => {
            return None;
        },
        Some(k) => k,
    };
    if k == RpgTargetKind::Participant {
        if cell_targets.len() > 0 {
            return Some(
                resolution_rejection(
                    "RPG_INTENT_CELL_BINDING_UNEXPECTED",
                    text("$.command.intent.cellTargets"),
                    text("participant-target actions cannot include cell bindings"),
                ),
            );
        }
        return None;
    }
    let mut indices: Vec<usize> = Vec::new();
    let ghost bindings = if k == RpgTargetKind::Cell {
        matched_bindings(target_ids@, cell_targets@)
    } else {
        cell_targets@
    };
    if k == RpgTargetKind::Cell {
        let mut t: usize = 0;
        while t < target_ids.len()
            invariant
                t <= target_ids@.len(),
                forall|q: int| 0 <= q < indices@.len() ==> (#[trigger] indices@[q]) < cell_targets@.len(),
                indices@.map_values(|i: usize| cell_targets@[i as int]) == matched_bindings(
                    target_ids@.take(t as int),
                    cell_targets@,
                ),
            decreases target_ids.len() - t,
        {
            proof {
                assert(target_ids@.take(t + 1).drop_last() =~= target_ids@.take(t as int));
            }
            let ghost before = indices@;
            match first_binding(cell_targets, &target_ids[t]) {
                None => {},
                Some(b) => {
                    indices.push(b);
                    assert(indices@.map_values(|i: usize| cell_targets@[i as int]) =~= before.map_values(
                        |i: usize| cell_targets@[i as int],
                    ).push(cell_targets@[b as int]));
                },
            }
            t = t + 1;
        }
        proof {
            assert(target_ids@.take(t as int) =~= target_ids@);
        }
        if indices.len() != target_ids.len() {
            return Some(
                resolution_rejection(
                    "RPG_INTENT_CELL_BINDING_MISSING",
                    text("$.command.intent.cellTargets"),
                    text("every selected cell requires one authoritative position binding"),
                ),
            );
        }
    } else {
        let mut c: usize = 0;
        while c < cell_targets.len()
            invariant
                c <= cell_targets@.len(),
                forall|q: int| 0 <= q < indices@.len() ==> (#[trigger] indices@[q]) < cell_targets@.len(),
                indices@.map_values(|i: usize| cell_targets@[i as int]) == cell_targets@.take(c as int),
            decreases cell_targets.len() - c,
        {
            let ghost before = indices@;
            indices.push(c);
            assert(indices@.map_values(|i: usize| cell_targets@[i as int]) =~= before.map_values(
                |i: usize| cell_targets@[i as int],
            ).push(cell_targets@[c as int]));
            assert(cell_targets@.take(c + 1) =~= cell_targets@.take(c as int).push(
                cell_targets@[c as int],
            ));
            c = c + 1;
        }
        proof {
            assert(cell_targets@.take(c as int) =~= cell_targets@);
        }
    }
    let ghost bs = indices@.map_values(|i: usize| cell_targets@[i as int]);
    assert(bs == bindings);
    let ghost f = binding_wrong(board);
    let mut w: usize = 0;
    while w < indices.len()
        invariant
            bs == indices@.map_values(|i: usize| cell_targets@[i as int]),
            forall|q: int| 0 <= q < indices@.len() ==> (#[trigger] indices@[q]) < cell_targets@.len(),
            f == binding_wrong(board),
            kind == Some(k),
            k != RpgTargetKind::Participant,
            bs == (if k == RpgTargetKind::Cell {
                matched_bindings(target_ids@, cell_targets@)
            } else {
                cell_targets@
            }),
            k == RpgTargetKind::Cell ==> bs.len() == target_ids@.len(),
            w <= indices@.len(),
            forall|q: int| 0 <= q < w ==> !f(#[trigger] bs[q]),
        decreases indices.len() - w,
    {
        let binding = &cell_targets[indices[w]];
        assert(bs[w as int] == *binding);
        match board_cell_of(board, &binding.id) {
            None => {
                proof {
                    assert(f(bs[w as int]));
                    lemma_first_index_is(bs, f, w as int);
                }
                return Some(
                    resolution_rejection(
                        "RPG_INTENT_CELL_UNKNOWN",
                        indexed_path("$.command.intent.cellTargets", w, ".id"),
                        join("unknown encounter cell ", binding.id.as_str()),
                    ),
                );
            },
            Some(i) => {
                if board.cells[i].position != binding.position {
                    proof {
                        assert(f(bs[w as int]));
                        lemma_first_index_is(bs, f, w as int);
                    }
                    return Some(
                        resolution_rejection(
                            "RPG_INTENT_CELL_BINDING_MISMATCH",
                            indexed_path("$.command.intent.cellTargets", w, ".position"),
                            join3(
                                "selected cell ",
                                binding.id.as_str(),
                                " does not match the encounter board",
                            ),
                        ),
                    );
                }
            },
        }
        w = w + 1;
    }
    proof {
        lemma_first_index_is(bs, f, -1);
    }
    None
}

pub open spec fn destination_listed(paths: Seq<RpgCellPathView>, id: Seq<char>) -> bool {
    exists|p: int| 0 <= p < paths.len() && (#[trigger] paths[p]).destination_cell_id@ == id
}

pub open spec fn unreachable_in(paths: Seq<RpgCellPathView>) -> spec_fn(String) -> bool {
    |t: String| !destination_listed(paths, t@)
}

/// Why a movement intent is refused: for an action that moves to a
/// selected destination within `maximum_distance`, the first selected
/// destination among no movement path.
pub open spec fn movement_refusal(
    paths: Seq<RpgCellPathView>,
    maximum_distance: Option<u32>,
    target_ids: Seq<String>,
) -> Option<RejectionText> {
    let t = first_index_where(target_ids, unreachable_in(paths));
    match maximum_distance {
        None => None,
        Some(m) => if t < 0 {
            None
        } else {
            Some(
                refusal(
                    "RPG_MOVEMENT_PATH_UNAVAILABLE"@,
                    indexed("$.command.intent.targetIds"@, t as nat, Seq::empty()),
                    "destination "@ + target_ids[t]@
                        + " has no traversable path within movement cost "@ + decimal(m as nat),
                ),
            )
        },
    }
}

fn destination_listed_exec(paths: &Vec<RpgCellPathView>, id: &String) -> (b: bool)
    ensures
        b == destination_listed(paths@, id@),
{
    let mut p: usize = 0;
    while p < paths.len()
        invariant
            p <= paths@.len(),
            forall|q: int| 0 <= q < p ==> (#[trigger] paths@[q]).destination_cell_id@ != id@,
        decreases paths.len() - p,
    {
        if paths[p].destination_cell_id == *id {
            return true;
        }
        p = p + 1;
    }
    false
}

/// Refuses a movement intent whose selected destination is not among the
/// movement paths the actor has within the action's maximum distance
/// (`paths` are those paths; `maximum_distance` is `None` for actions that
/// do not move to a selected destination).
pub fn movement_path_rejection(
    paths: &Vec<RpgCellPathView>,
    maximum_distance: Option<u32>,
    target_ids: &Vec<String>,
) -> (r: Option<RpgResolutionRejection>)
    ensures
        match r {
            None => movement_refusal(paths@, maximum_distance, target_ids@) is None,
            Some(x) => movement_refusal(paths@, maximum_distance, target_ids@) == Some(
                rejection_text(x),
            ),
        },
{
    proof {
        reveal_strlit("");
    }
    let m = match maximum_distance {
        None => {
            return None;
        },
        Some(m) => m,
    };
    let ghost f = unreachable_in(paths@);
    let mut t: usize = 0;
    while t < target_ids.len()
        invariant
            f == unreachable_in(paths@),
            maximum_distance == Some(m),
            ""@ == Seq::<char>::empty(),
            t <= target_ids@.len(),
            forall|q: int| 0 <= q < t ==> !f(#[trigger] target_ids@[q]),
        decreases target_ids.len() - t,
    {
        if !destination_listed_exec(paths, &target_ids[t]) {
            proof {
                assert(f(target_ids@[t as int]));
                lemma_first_index_is(target_ids@, f, t as int);
            }
            let mut message = join3(
                "destination ",
                target_ids[t].as_str(),
                " has no traversable path within movement cost ",
            );
            push_decimal(&mut message, m as u64);
            return Some(
                resolution_rejection(
                    "RPG_MOVEMENT_PATH_UNAVAILABLE",
                    indexed_path("$.command.intent.targetIds", t, ""),
                    message,
                ),
            );
        }
        t = t + 1;
    }
    proof {
        lemma_first_index_is(target_ids@, f, -1);
    }
    None
}

/// Texts joined with `, `.
pub open spec fn comma_joined(v: Seq<Seq<char>>) -> Seq<char>
    decreases v.len(),
{
    if v.len() == 0 {
        Seq::empty()
    } else if v.len() == 1 {
        v[0]
    } else {
        comma_joined(v.drop_last()) + ", "@ + v.last()
    }
}

fn join_with_commas(v: &Vec<String>) -> (r: String)
    ensures
        r@ == comma_joined(texts(v@)),
{
    let mut r = String::new();
    let mut i: usize = 0;
    while i < v.len()
        invariant
            i <= v@.len(),
            r@ == comma_joined(texts(v@.take(i as int))),
        decreases v.len() - i,
    {
        proof {
            assert(texts(v@.take(i + 1)).drop_last() =~= texts(v@.take(i as int)));
            assert(texts(v@.take(i + 1)).last() == v@[i as int]@);
        }
        if i > 0 {
            r = join(r.as_str(), ", ");
        }
        r = join(r.as_str(), v[i].as_str());
        proof {
            if i == 0 {
                assert(r@ =~= comma_joined(texts(v@.take(1))));
            }
        }
        i = i + 1;
    }
    proof {
        assert(v@.take(i as int) =~= v@);
    }
    r
}

pub open spec fn blocked_message(blockers: Seq<Seq<char>>) -> Seq<char> {
    "line of effect is blocked by ["@ + comma_joined(blockers) + "]"@
}

pub open spec fn target_blocked(
    board: &RpgBoardSetup,
    entities: Seq<RpgEntityState>,
    from: GridPosition,
) -> spec_fn(String) -> bool {
    |t: String|
        entity_index(entities, t@) >= 0 && line_of_effect_reason(
            board.cells@,
            from,
            entities[entity_index(entities, t@)].position,
        ) is Some
}

pub open spec fn cell_blocked(board: &RpgBoardSetup, from: GridPosition) -> spec_fn(
    RpgIntentCellTarget,
) -> bool {
    |c: RpgIntentCellTarget| line_of_effect_reason(board.cells@, from, c.position) is Some
}

/// Why an intent of an action that requires line of effect is refused: for
/// a participant-target action the first existing target out of the actor's
/// line of effect, for a cell-target action the first bound cell out of it.
pub open spec fn line_of_effect_refusal(
    board: &RpgBoardSetup,
    entities: Seq<RpgEntityState>,
    actor_id: Seq<char>,
    kind: Option<RpgTargetKind>,
    required: bool,
    target_ids: Seq<String>,
    cell_targets: Seq<RpgIntentCellTarget>,
) -> Option<RejectionText> {
    let a = entity_index(entities, actor_id);
    let from = entities[a].position;
    let t = first_index_where(target_ids, target_blocked(board, entities, from));
    let c = first_index_where(cell_targets, cell_blocked(board, from));
    if !required || a < 0 {
        None
    } else if kind == Some(RpgTargetKind::Participant) {
        if t < 0 {
            None
        } else {
            Some(
                refusal(
                    "RPG_LINE_OF_EFFECT_BLOCKED"@,
                    indexed("$.command.intent.targetIds"@, t as nat, Seq::empty()),
                    blocked_message(
                        line_of_effect_blockers(
                            board.cells@,
                            from,
                            entities[entity_index(entities, target_ids[t]@)].position,
                        ),
                    ),
                ),
            )
        }
    } else if kind == Some(RpgTargetKind::Cell) {
        if c < 0 {
            None
        } else {
            Some(
                refusal(
                    "RPG_LINE_OF_EFFECT_BLOCKED"@,
                    indexed("$.command.intent.cellTargets"@, c as nat, Seq::empty()),
                    blocked_message(line_of_effect_blockers(board.cells@, from, cell_targets[c].position)),
                ),
            )
        }
    } else {
        None
    }
}

/// Refuses an intent whose targets (or bound cells) are out of the actor's
/// line of effect, for actions that require it; area actions are checked
/// when their area is projected.
pub fn line_of_effect_rejection(
    board: &RpgBoardSetup,
    entities: &Vec<RpgEntityState>,
    actor_id: &String,
    kind: Option<RpgTargetKind>,
    required: bool,
    target_ids: &Vec<String>,
    cell_targets: &Vec<RpgIntentCellTarget>,
) -> (r: Option<RpgResolutionRejection>)
    ensures
        match r {
            None => line_of_effect_refusal(
                board,
                entities@,
                actor_id@,
                kind,
                required,
                target_ids@,
                cell_targets@,
            ) is None,
            Some(x) => line_of_effect_refusal(
                board,
                entities@,
                actor_id@,
                kind,
                required,
                target_ids@,
                cell_targets@,
            ) == Some(rejection_text(x)),
        },
{
    proof {
        reveal_strlit("");
        reveal_strlit("line of effect is blocked by [");
        reveal_strlit("]");
    }
    if !required {
        return None;
    }
    let a = match find_entity(entities, actor_id) {
        None => {
            return None;
        },
        Some(a) => a,
    };
    let from = entities[a].position;
    match kind {
        Some(RpgTargetKind::Participant) => {
            let ghost f = target_blocked(board, entities@, from);
            let mut t: usize = 0;
            while t < target_ids.len()
                invariant
                    f == target_blocked(board, entities@, from),
                    required,
                    kind == Some(RpgTargetKind::Participant),
                    a < entities@.len(),
                    a as int == entity_index(entities@, actor_id@),
                    from == entities@[a as int].position,
                    ""@ == Seq::<char>::empty(),
                    t <= target_ids@.len(),
                    forall|q: int| 0 <= q < t ==> !f(#[trigger] target_ids@[q]),
                decreases target_ids.len() - t,
            {
                match find_entity(entities, &target_ids[t]) {
                    None => {},
                    Some(e) => {
                        let projection = line_of_effect_projection(board, from, entities[e].position);
                        if !projection.clear {
                            proof {
                                assert(f(target_ids@[t as int]));
                                lemma_first_index_is(target_ids@, f, t as int);
                            }
                            let listed = join_with_commas(&projection.blocking_cell_ids);
                            let message = join3(
                                "line of effect is blocked by [",
                                listed.as_str(),
                                "]",
                            );
                            return Some(
                                resolution_rejection(
                                    "RPG_LINE_OF_EFFECT_BLOCKED",
                                    indexed_path("$.command.intent.targetIds", t, ""),
                                    message,
                                ),
                            );
                        }
                    },
                }
                t = t + 1;
            }
            proof {
                lemma_first_index_is(target_ids@, f, -1);
            }
            None
        },
        Some(RpgTargetKind::Cell) => {
            let ghost f = cell_blocked(board, from);
            let mut c: usize = 0;
            while c < cell_targets.len()
                invariant
                    f == cell_blocked(board, from),
                    required,
                    kind == Some(RpgTargetKind::Cell),
                    a < entities@.len(),
                    a as int == entity_index(entities@, actor_id@),
                    from == entities@[a as int].position,
                    ""@ == Seq::<char>::empty(),
                    c <= cell_targets@.len(),
                    forall|q: int| 0 <= q < c ==> !f(#[trigger] cell_targets@[q]),
                decreases cell_targets.len() - c,
            {
                let projection = line_of_effect_projection(board, from, cell_targets[c].position);
                if !projection.clear {
                    proof {
                        assert(f(cell_targets@[c as int]));
                        lemma_first_index_is(cell_targets@, f, c as int);
                    }
                    let listed = join_with_commas(&projection.blocking_cell_ids);
                    let message = join3("line of effect is blocked by [", listed.as_str(), "]");
                    return Some(
                        resolution_rejection(
                            "RPG_LINE_OF_EFFECT_BLOCKED",
                            indexed_path("$.command.intent.cellTargets", c, ""),
                            message,
                        ),
                    );
                }
                c = c + 1;
            }
            proof {
                lemma_first_index_is(cell_targets@, f, -1);
            }
            None
        },
        _ => None,
    }
}

} // verus!
