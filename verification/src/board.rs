use vstd::prelude::*;

verus! {

/// The reserved capability identity of a line-of-effect obstruction fact.
pub const RPG_LINE_OF_EFFECT_OBSTRUCTION_ID: &'static str = "line-of-effect.obstruction";

/// The one supported version of the obstruction fact.
pub const RPG_LINE_OF_EFFECT_OBSTRUCTION_VERSION: u32 = 1;

/// The largest board width or height a scenario may declare.
pub const MAXIMUM_BOARD_EXTENT: u32 = 1024;

/// A square-grid coordinate.
#[derive(Debug, Clone, Copy, PartialEq, Eq, Structural)]
pub struct GridPosition {
    pub x: u32,
    pub y: u32,
}

/// The typed value of one cell capability.
#[allow(inconsistent_fields)]
#[derive(Debug, Clone)]
pub enum RpgCellCapabilityValue {
    Traversal { passable: bool, movement_cost: u32 },
    Flag { value: bool },
    LineOfEffectObstruction { blocks: bool },
    Integer { value: i32 },
    Identifier { value_id: String },
}

/// One capability fact attached to a board cell.
#[derive(Debug, Clone)]
pub struct RpgCellCapabilitySetup {
    pub id: String,
    pub version: u32,
    pub definition_id: Option<String>,
    pub value: RpgCellCapabilityValue,
}

/// One board cell with its identity, position and capability facts.
#[derive(Debug, Clone)]
pub struct RpgCellSetup {
    pub id: String,
    pub position: GridPosition,
    pub capabilities: Vec<RpgCellCapabilitySetup>,
}

/// The encounter board: its extent and the cells that exist on it.
#[derive(Debug, Clone)]
pub struct RpgBoardSetup {
    pub width: u32,
    pub height: u32,
    pub cells: Vec<RpgCellSetup>,
}

/// Why a line of effect is not clear.
#[derive(Debug, Clone, Copy, PartialEq, Eq, Structural)]
pub enum RpgLineOfEffectReason {
    /// An endpoint or a traversed position has no cell.
    CellMissing,
    /// At least one traversed cell obstructs the line.
    Blocked,
}

impl RpgLineOfEffectReason {
    /// The portable spelling of this reason.
    pub fn as_str(&self) -> (s: &'static str)
        ensures
            s@ == self.spelling(),
    {
        match self {
            RpgLineOfEffectReason::CellMissing => "lineOfEffectCellMissing",
            RpgLineOfEffectReason::Blocked => "lineOfEffectBlocked",
        }
    }

    pub open spec fn spelling(&self) -> Seq<char> {
        match self {
            RpgLineOfEffectReason::CellMissing => "lineOfEffectCellMissing"@,
            RpgLineOfEffectReason::Blocked => "lineOfEffectBlocked"@,
        }
    }
}

/// The result of tracing a line of effect between two positions.
#[derive(Debug, Clone)]
pub struct RpgLineOfEffectProjection {
    pub clear: bool,
    pub reason: Option<RpgLineOfEffectReason>,
    pub blocking_cell_ids: Vec<String>,
}

pub open spec fn position_in_board_spec(board: &RpgBoardSetup, p: GridPosition) -> bool {
    p.x < board.width && p.y < board.height
}

/// Whether a position lies inside the board extent.
pub fn position_in_board(board: &RpgBoardSetup, position: GridPosition) -> (b: bool)
    ensures
        b == position_in_board_spec(board, position),
{
    position.x < board.width && position.y < board.height
}

/// The index of the last cell at a position, or -1 (a position index keeps
/// the last record written for it).
pub open spec fn last_cell_index(cells: Seq<RpgCellSetup>, p: GridPosition) -> int
    decreases cells.len(),
{
    if cells.len() == 0 {
        -1
    } else if cells.last().position == p {
        cells.len() - 1
    } else {
        last_cell_index(cells.drop_last(), p)
    }
}

/// The index of the first cell at a position, or -1.
pub open spec fn first_cell_index(cells: Seq<RpgCellSetup>, p: GridPosition) -> int
    decreases cells.len(),
{
    if cells.len() == 0 {
        -1
    } else if cells[0].position == p {
        0
    } else {
        let rest = first_cell_index(cells.drop_first(), p);
        if rest < 0 {
            -1
        } else {
            rest + 1
        }
    }
}

pub proof fn lemma_last_cell_index(cells: Seq<RpgCellSetup>, p: GridPosition)
    ensures
        ({
            let i = last_cell_index(cells, p);
            ||| (i == -1 && forall|j: int| 0 <= j < cells.len() ==> (#[trigger] cells[j]).position
                != p)
            ||| (0 <= i < cells.len() && cells[i].position == p && forall|j: int|
                i < j < cells.len() ==> (#[trigger] cells[j]).position != p)
        }),
    decreases cells.len(),
{
    if cells.len() > 0 {
        lemma_last_cell_index(cells.drop_last(), p);
        let i = last_cell_index(cells.drop_last(), p);
        if cells.last().position != p {
            assert forall|j: int| i < j < cells.len() implies (#[trigger] cells[j]).position != p by {
                if j < cells.len() - 1 {
                    assert(cells[j] == cells.drop_last()[j]);
                }
            }
        }
    }
}

pub proof fn lemma_first_cell_index(cells: Seq<RpgCellSetup>, p: GridPosition)
    ensures
        ({
            let i = first_cell_index(cells, p);
            ||| (i == -1 && forall|j: int| 0 <= j < cells.len() ==> (#[trigger] cells[j]).position
                != p)
            ||| (0 <= i < cells.len() && cells[i].position == p && forall|j: int|
                0 <= j < i ==> (#[trigger] cells[j]).position != p)
        }),
    decreases cells.len(),
{
    if cells.len() > 0 && cells[0].position != p {
        lemma_first_cell_index(cells.drop_first(), p);
        assert forall|j: int| 1 <= j < cells.len() implies cells[j] == cells.drop_first()[j - 1] by {}
    }
}

/// Finds the last cell recorded at a position.
pub fn last_cell_at(cells: &Vec<RpgCellSetup>, p: GridPosition) -> (r: Option<usize>)
    ensures
        match r {
            Some(i) => i as int == last_cell_index(cells@, p) && i < cells@.len()
                && cells@[i as int].position == p,
            None => last_cell_index(cells@, p) == -1,
        },
{
    proof {
        lemma_last_cell_index(cells@, p);
    }
    let mut i = cells.len();
    while i > 0
        invariant
            i <= cells@.len(),
            forall|j: int| i <= j < cells@.len() ==> (#[trigger] cells@[j]).position != p,
        decreases i,
    {
        if cells[i - 1].position == p {
            proof {
                lemma_last_cell_index(cells@, p);
                let k = last_cell_index(cells@, p);
                if k != i - 1 {
                    assert(cells@[i - 1].position == p);
                    if k >= 0 && k < i - 1 {
                        assert(cells@[i - 1].position != p);
                    }
                }
            }
            return Some(i - 1);
        }
        i = i - 1;
    }
    None
}

/// Finds the first cell recorded at a position.
pub fn first_cell_at(cells: &Vec<RpgCellSetup>, p: GridPosition) -> (r: Option<usize>)
    ensures
        match r {
            Some(i) => i as int == first_cell_index(cells@, p) && i < cells@.len()
                && cells@[i as int].position == p,
            None => first_cell_index(cells@, p) == -1,
        },
{
    proof {
        lemma_first_cell_index(cells@, p);
    }
    let mut i: usize = 0;
    while i < cells.len()
        invariant
            i <= cells@.len(),
            forall|j: int| 0 <= j < i ==> (#[trigger] cells@[j]).position != p,
        decreases cells.len() - i,
    {
        if cells[i].position == p {
            proof {
                lemma_first_cell_index(cells@, p);
                let k = first_cell_index(cells@, p);
                if k != i {
                    assert(cells@[i as int].position == p);
                    if k > i {
                        assert(cells@[i as int].position != p);
                    }
                }
            }
            return Some(i);
        }
        i = i + 1;
    }
    None
}

pub open spec fn capability_blocks_position(c: RpgCellCapabilitySetup) -> bool {
    c.value matches RpgCellCapabilityValue::Traversal { passable, .. } && !passable
}

pub open spec fn cell_blocks_position_spec(board: &RpgBoardSetup, p: GridPosition) -> bool {
    let i = first_cell_index(board.cells@, p);
    i >= 0 && exists|k: int|
        0 <= k < board.cells@[i].capabilities@.len() && capability_blocks_position(
            #[trigger] board.cells@[i].capabilities@[k],
        )
}

/// Whether the (first) cell at a position carries an impassable traversal fact.
pub fn cell_blocks_position(board: &RpgBoardSetup, position: GridPosition) -> (b: bool)
    ensures
        b == cell_blocks_position_spec(board, position),
{
    match first_cell_at(&board.cells, position) {
        None => false,
        Some(i) => {
            let capabilities = &board.cells[i].capabilities;
            let mut k: usize = 0;
            while k < capabilities.len()
                invariant
                    i < board.cells@.len(),
                    i as int == first_cell_index(board.cells@, position),
                    capabilities == board.cells@[i as int].capabilities,
                    k <= capabilities@.len(),
                    forall|j: int|
                        0 <= j < k ==> !capability_blocks_position(#[trigger] capabilities@[j]),
                decreases capabilities.len() - k,
            {
                if let RpgCellCapabilityValue::Traversal { passable, .. } = capabilities[k].value {
                    if !passable {
                        assert(capability_blocks_position(board.cells@[i as int].capabilities@[k as int]));
                        return true;
                    }
                }
                k = k + 1;
            }
            false
        },
    }
}

pub open spec fn capability_obstructs(c: RpgCellCapabilitySetup) -> bool {
    &&& c.id@ == RPG_LINE_OF_EFFECT_OBSTRUCTION_ID@
    &&& c.version == RPG_LINE_OF_EFFECT_OBSTRUCTION_VERSION
    &&& c.value matches RpgCellCapabilityValue::LineOfEffectObstruction { blocks } && blocks
}

pub open spec fn cell_obstructs(cell: RpgCellSetup) -> bool {
    exists|k: int|
        0 <= k < cell.capabilities@.len() && capability_obstructs(#[trigger] cell.capabilities@[k])
}

/// Whether a cell carries `line-of-effect.obstruction@1` with `blocks: true`.
pub fn cell_blocks_line_of_effect(cell: &RpgCellSetup) -> (b: bool)
    ensures
        b == cell_obstructs(*cell),
{
    let reserved = crate::text::text(RPG_LINE_OF_EFFECT_OBSTRUCTION_ID);
    let mut k: usize = 0;
    while k < cell.capabilities.len()
        invariant
            reserved@ == RPG_LINE_OF_EFFECT_OBSTRUCTION_ID@,
            k <= cell.capabilities@.len(),
            forall|j: int| 0 <= j < k ==> !capability_obstructs(#[trigger] cell.capabilities@[j]),
        decreases cell.capabilities.len() - k,
    {
        let capability = &cell.capabilities[k];
        if capability.id == reserved && capability.version == RPG_LINE_OF_EFFECT_OBSTRUCTION_VERSION {
            if let RpgCellCapabilityValue::LineOfEffectObstruction { blocks } = capability.value {
                if blocks {
                    return true;
                }
            }
        }
        k = k + 1;
    }
    false
}

} // verus!
