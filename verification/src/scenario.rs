use vstd::prelude::*;

use crate::board::{
    position_in_board_spec, GridPosition, RpgBoardSetup, RpgCellCapabilitySetup,
    RpgCellCapabilityValue, MAXIMUM_BOARD_EXTENT, RPG_LINE_OF_EFFECT_OBSTRUCTION_ID,
    RPG_LINE_OF_EFFECT_OBSTRUCTION_VERSION,
};
use crate::model::{last_index_where, lemma_last_index_is, BoundedValue};
use crate::text::{blank, indexed, indexed_path, is_blank, join, join3, text};

verus! {

/// The schema identity and version of the scenario documents this library accepts.
pub const RPG_SCENARIO_SCHEMA_ID: &'static str = "asha.rpg.scenario";

pub const RPG_SCENARIO_SCHEMA_VERSION: u32 = 3;

/// A versioned schema identity.
#[derive(Debug, Clone)]
pub struct RpgSchemaIdentity {
    pub id: String,
    pub version: u32,
}

/// One item instance a participant carries.
#[derive(Debug, Clone)]
pub struct RpgItemInstanceSetup {
    pub id: String,
    pub definition_id: String,
}

/// One equipment slot and the item instance that occupies it.
#[derive(Debug, Clone)]
pub struct RpgEquipmentSlotSetup {
    pub slot_id: String,
    pub item_instance_id: String,
}

/// An initial capability value, tagged by the capability that owns it.
#[allow(inconsistent_fields)]
#[derive(Debug, Clone)]
pub enum RpgInitialCapability {
    Vitality { value: BoundedValue },
    Stat { id: String, value: i32 },
    Defense { id: String, value: i32 },
    Resource { id: String, value: BoundedValue },
    Modifier { stacking_group: String, id: String, value: i32, remaining_turns: u32 },
}

/// One authority-controlled participant of the encounter.
#[derive(Debug, Clone)]
pub struct RpgParticipantSetup {
    pub id: String,
    pub label: String,
    pub team_id: String,
    pub position: GridPosition,
    pub definition_ids: Vec<String>,
    pub class_definition_id: Option<String>,
    pub feature_definition_ids: Vec<String>,
    pub items: Vec<RpgItemInstanceSetup>,
    pub equipment: Vec<RpgEquipmentSlotSetup>,
    pub capabilities: Vec<RpgInitialCapability>,
}

/// The opening initiative order, current actor and counters.
#[derive(Debug, Clone)]
pub struct RpgTurnInitialization {
    pub initiative_order: Vec<String>,
    pub current_actor_id: String,
    pub round: u64,
    pub turn: u64,
}

/// The random policy and source an encounter is bound to.
#[derive(Debug, Clone)]
pub struct RpgRandomSourceBinding {
    pub policy_id: String,
    pub policy_version: u32,
    pub source_id: String,
    pub source_version: u32,
}

/// An encounter setup bound to one compiled PlayBundle.
#[derive(Debug, Clone)]
pub struct RpgScenario {
    pub schema: RpgSchemaIdentity,
    pub play_bundle_id: String,
    pub board: RpgBoardSetup,
    pub participants: Vec<RpgParticipantSetup>,
    pub turn: RpgTurnInitialization,
    pub random_source: RpgRandomSourceBinding,
}

impl RpgScenario {
    /// The schema identity scenario documents must declare.
    pub fn schema() -> (s: RpgSchemaIdentity)
        ensures
            s.id@ == RPG_SCENARIO_SCHEMA_ID@,
            s.version == RPG_SCENARIO_SCHEMA_VERSION,
    {
        RpgSchemaIdentity { id: text(RPG_SCENARIO_SCHEMA_ID), version: RPG_SCENARIO_SCHEMA_VERSION }
    }
}

/// One validation finding with its stable code and JSON path.
#[derive(Debug, Clone)]
pub struct RpgScenarioDiagnostic {
    pub code: String,
    pub path: String,
    pub message: String,
}

/// Every finding of a rejected scenario.
#[derive(Debug, Clone)]
pub struct RpgScenarioFailure {
    pub diagnostics: Vec<RpgScenarioDiagnostic>,
}

/// The kind of a materialised content definition.
#[derive(Debug, Clone, Copy, PartialEq, Eq, Structural)]
pub enum RpgDefinitionKind {
    Action,
    ActionProcedure,
    CharacterClass,
    CharacterFeature,
    Effect,
    Item,
    Support,
}

/// Whether a definition is exported by its artifact.
#[derive(Debug, Clone, Copy, PartialEq, Eq, Structural)]
pub enum RpgDefinitionVisibility {
    Exported,
    Internal,
}

/// A materialised definition of the bound artifact.
#[derive(Debug, Clone)]
pub struct RpgCatalogDefinition {
    pub id: String,
    pub kind: RpgDefinitionKind,
    pub visibility: RpgDefinitionVisibility,
}

/// A compiled item definition and the slots it may occupy (sorted).
#[derive(Debug, Clone)]
pub struct RpgCatalogItem {
    pub definition_id: String,
    pub allowed_slots: Vec<String>,
}

/// A compiled character class and the features it makes available (sorted).
#[derive(Debug, Clone)]
pub struct RpgCatalogClass {
    pub definition_id: String,
    pub feature_definition_ids: Vec<String>,
}

/// The two kinds of ruleset value a scenario may supply.
#[derive(Debug, Clone, Copy, PartialEq, Eq, Structural)]
pub enum RpgRulesetValueKind {
    Stat,
    Defense,
}

/// A ruleset value with the bounds of its numeric domain.
#[derive(Debug, Clone)]
pub struct RpgCatalogRulesetValue {
    pub kind: RpgRulesetValueKind,
    pub id: String,
    pub minimum: i64,
    pub maximum: i64,
}

/// A ruleset value identity.
#[derive(Debug, Clone)]
pub struct RpgRulesetValueKey {
    pub kind: RpgRulesetValueKind,
    pub id: String,
}

/// A support-definition value of a content catalog (`resource`, `modifier`, ...).
#[derive(Debug, Clone)]
pub struct RpgCatalogContentValue {
    pub catalog: String,
    pub id: String,
}

/// A versioned ruleset model identity.
#[derive(Debug, Clone)]
pub struct RpgVersionedModel {
    pub id: String,
    pub version: u32,
}

/// Why deriving a participant's ruleset values failed.
#[derive(Debug, Clone)]
pub struct RpgValueDerivationFailure {
    pub code: String,
    pub target_id: String,
    pub message: String,
}

/// What scenario validation reads of a compiled PlayBundle.
#[derive(Debug, Clone)]
pub struct RpgScenarioCatalog {
    pub artifact_id: String,
    pub definitions: Vec<RpgCatalogDefinition>,
    pub action_ids: Vec<String>,
    pub items: Vec<RpgCatalogItem>,
    pub classes: Vec<RpgCatalogClass>,
    pub feature_ids: Vec<String>,
    pub required_capabilities: Vec<String>,
    pub ruleset_values: Vec<RpgCatalogRulesetValue>,
    pub content_values: Vec<RpgCatalogContentValue>,
    pub derived_values: Vec<RpgRulesetValueKey>,
    pub line_of_effect_model: Option<RpgVersionedModel>,
    pub maximum_modifier_turns: u32,
}

/// A diagnostic as plain text: code, path, message.
pub type DiagnosticText = (Seq<char>, Seq<char>, Seq<char>);

pub open spec fn diagnostic_text(d: RpgScenarioDiagnostic) -> DiagnosticText {
    (d.code@, d.path@, d.message@)
}

pub open spec fn diagnostic_texts(v: Seq<RpgScenarioDiagnostic>) -> Seq<DiagnosticText> {
    v.map_values(|d: RpgScenarioDiagnostic| diagnostic_text(d))
}

pub open spec fn one(code: Seq<char>, path: Seq<char>, message: Seq<char>) -> Seq<DiagnosticText> {
    seq![(code, path, message)]
}

/// The concatenation of `f(0) + ... + f(n - 1)`.
pub open spec fn concat_upto(n: int, f: spec_fn(int) -> Seq<DiagnosticText>) -> Seq<DiagnosticText>
    decreases n,
{
    if n <= 0 {
        Seq::empty()
    } else {
        concat_upto(n - 1, f) + f(n - 1)
    }
}

pub open spec fn only_if(c: bool, d: Seq<DiagnosticText>) -> Seq<DiagnosticText> {
    if c {
        d
    } else {
        Seq::empty()
    }
}

/// Builds a diagnostic.
pub fn scenario_diagnostic(code: &str, path: String, message: String) -> (d: RpgScenarioDiagnostic)
    ensures
        diagnostic_text(d) == (code@, path@, message@),
{
    RpgScenarioDiagnostic { code: text(code), path, message }
}

fn push_diagnostic(
    out: &mut Vec<RpgScenarioDiagnostic>,
    code: &str,
    path: String,
    message: String,
)
    ensures
        diagnostic_texts(final(out)@) == diagnostic_texts(old(out)@) + one(code@, path@, message@),
{
    let ghost before = out@;
    out.push(scenario_diagnostic(code, path, message));
    assert(diagnostic_texts(out@) =~= diagnostic_texts(before) + one(code@, path@, message@));
}

fn append_diagnostics(out: &mut Vec<RpgScenarioDiagnostic>, more: Vec<RpgScenarioDiagnostic>)
    ensures
        diagnostic_texts(final(out)@) == diagnostic_texts(old(out)@) + diagnostic_texts(more@),
{
    let mut more = more;
    let ghost a = out@;
    let ghost b = more@;
    out.append(&mut more);
    assert(diagnostic_texts(out@) =~= diagnostic_texts(a) + diagnostic_texts(b));
}

// ---------------------------------------------------------------------------
// Board validation
// ---------------------------------------------------------------------------

pub open spec fn definition_with_id(id: Seq<char>) -> spec_fn(RpgCatalogDefinition) -> bool {
    |d: RpgCatalogDefinition| d.id@ == id
}

/// The kind a definition identity resolves to in the artifact (the last
/// record for a repeated identity).
pub open spec fn definition_kind(
    catalog: &RpgScenarioCatalog,
    id: Seq<char>,
) -> Option<RpgDefinitionKind> {
    let i = last_index_where(catalog.definitions@, definition_with_id(id));
    if i < 0 {
        None
    } else {
        Some(catalog.definitions@[i].kind)
    }
}

pub open spec fn line_of_effect_model_available(catalog: &RpgScenarioCatalog) -> bool {
    match catalog.line_of_effect_model {
        Some(m) => m.id@ == "line-of-effect.square-grid-supercover"@ && m.version == 1,
        None => false,
    }
}

pub open spec fn is_traversal(c: RpgCellCapabilitySetup) -> bool {
    c.value is Traversal
}

pub open spec fn is_obstruction(c: RpgCellCapabilitySetup) -> bool {
    c.value is LineOfEffectObstruction
}

pub open spec fn capability_diagnostics(
    catalog: &RpgScenarioCatalog,
    caps: Seq<RpgCellCapabilitySetup>,
    k: int,
    path: Seq<char>,
) -> Seq<DiagnosticText> {
    let c = caps[k];
    let earlier = caps.take(k);
    let id_invalid = is_blank(c.id@) || exists|j: int|
        0 <= j < k && (#[trigger] earlier[j]).id@ == c.id@;
    let traversal_seen = exists|j: int| 0 <= j < k && is_traversal(#[trigger] earlier[j]);
    let obstruction_seen = exists|j: int| 0 <= j < k && is_obstruction(#[trigger] earlier[j]);
    only_if(
        id_invalid,
        one(
            "RPG_SCENARIO_CELL_CAPABILITY_ID_INVALID"@,
            path + ".id"@,
            "cell capability identity must be non-empty and unique per cell"@,
        ),
    ) + only_if(
        c.version == 0,
        one(
            "RPG_SCENARIO_CELL_CAPABILITY_VERSION_INVALID"@,
            path + ".version"@,
            "cell capability version must be positive"@,
        ),
    ) + only_if(
        c.id@ == RPG_LINE_OF_EFFECT_OBSTRUCTION_ID@ && !is_obstruction(c),
        one(
            "RPG_SCENARIO_LINE_OF_EFFECT_OBSTRUCTION_INVALID"@,
            path,
            "the reserved line-of-effect obstruction identity requires its typed value"@,
        ),
    ) + match c.definition_id {
        None => Seq::empty(),
        Some(d) => match definition_kind(catalog, d@) {
            None => one(
                "RPG_SCENARIO_DEFINITION_UNKNOWN"@,
                path + ".definitionId"@,
                "definition "@ + d@ + " is not in the bound artifact"@,
            ),
            Some(RpgDefinitionKind::Support) => Seq::empty(),
            Some(_) => one(
                "RPG_SCENARIO_CELL_DEFINITION_INCOMPATIBLE"@,
                path + ".definitionId"@,
                "cell capabilities must reference an artifact support definition"@,
            ),
        },
    } + match c.value {
        RpgCellCapabilityValue::Traversal { movement_cost, .. } => only_if(
            traversal_seen || movement_cost == 0,
            one(
                "RPG_SCENARIO_CELL_TRAVERSAL_INVALID"@,
                path + ".value"@,
                "a cell permits one traversal capability with positive movement cost"@,
            ),
        ),
        RpgCellCapabilityValue::LineOfEffectObstruction { .. } => only_if(
            obstruction_seen || c.id@ != RPG_LINE_OF_EFFECT_OBSTRUCTION_ID@ || c.version
                != RPG_LINE_OF_EFFECT_OBSTRUCTION_VERSION || c.definition_id is Some
                || !line_of_effect_model_available(catalog),
            one(
                "RPG_SCENARIO_LINE_OF_EFFECT_OBSTRUCTION_INVALID"@,
                path,
                "line-of-effect obstruction requires one line-of-effect.obstruction@1 fact per cell, no definition, and the square-grid-supercover Ruleset model"@,
            ),
        ),
        RpgCellCapabilityValue::Identifier { value_id } => only_if(
            is_blank(value_id@),
            one(
                "RPG_SCENARIO_CELL_VALUE_ID_EMPTY"@,
                path + ".value.valueId"@,
                "cell capability value identity must not be empty"@,
            ),
        ),
        _ => Seq::empty(),
    }
}

pub open spec fn capabilities_diagnostics(
    catalog: &RpgScenarioCatalog,
    caps: Seq<RpgCellCapabilitySetup>,
    n: int,
    cell_path: Seq<char>,
) -> Seq<DiagnosticText>
    decreases n,
{
    if n <= 0 {
        Seq::empty()
    } else {
        capabilities_diagnostics(catalog, caps, n - 1, cell_path) + capability_diagnostics(
            catalog,
            caps,
            n - 1,
            indexed(cell_path + ".capabilities"@, (n - 1) as nat, Seq::empty()),
        )
    }
}

pub open spec fn cell_diagnostics(
    catalog: &RpgScenarioCatalog,
    board: &RpgBoardSetup,
    i: int,
) -> Seq<DiagnosticText> {
    let cells = board.cells@;
    let cell = cells[i];
    let path = indexed("$.board.cells"@, i as nat, Seq::empty());
    only_if(
        is_blank(cell.id@) || exists|j: int| 0 <= j < i && (#[trigger] cells[j]).id@ == cell.id@,
        one(
            "RPG_SCENARIO_CELL_ID_INVALID"@,
            path + ".id"@,
            "cell identity must be non-empty and unique"@,
        ),
    ) + only_if(
        exists|j: int| 0 <= j < i && (#[trigger] cells[j]).position == cell.position,
        one(
            "RPG_SCENARIO_CELL_POSITION_DUPLICATE"@,
            path + ".position"@,
            "only one cell record may describe a board position"@,
        ),
    ) + only_if(
        !position_in_board_spec(board, cell.position),
        one(
            "RPG_SCENARIO_CELL_OUT_OF_BOUNDS"@,
            path + ".position"@,
            "cell position is outside the board extent"@,
        ),
    ) + capabilities_diagnostics(catalog, cell.capabilities@, cell.capabilities@.len() as int, path)
}

pub open spec fn cells_diagnostics(
    catalog: &RpgScenarioCatalog,
    board: &RpgBoardSetup,
    n: int,
) -> Seq<DiagnosticText>
    decreases n,
{
    if n <= 0 {
        Seq::empty()
    } else {
        cells_diagnostics(catalog, board, n - 1) + cell_diagnostics(catalog, board, n - 1)
    }
}

pub open spec fn board_extent_invalid(board: &RpgBoardSetup) -> bool {
    board.width == 0 || board.height == 0 || board.width > MAXIMUM_BOARD_EXTENT || board.height
        > MAXIMUM_BOARD_EXTENT
}

/// Every finding about a scenario board, in board order.
pub open spec fn board_diagnostics(catalog: &RpgScenarioCatalog, board: &RpgBoardSetup) -> Seq<
    DiagnosticText,
> {
    only_if(
        board_extent_invalid(board),
        one(
            "RPG_SCENARIO_BOARD_EXTENT_INVALID"@,
            "$.board"@,
            "board width and height must be within 1..=1024"@,
        ),
    ) + cells_diagnostics(catalog, board, board.cells@.len() as int)
}

fn definition_kind_of(catalog: &RpgScenarioCatalog, id: &String) -> (k: Option<RpgDefinitionKind>)
    ensures
        k == definition_kind(catalog, id@),
{
    let defs = &catalog.definitions;
    let mut i = defs.len();
    while i > 0
        invariant
            defs@ == catalog.definitions@,
            i <= defs@.len(),
            forall|j: int| i <= j < defs@.len() ==> !definition_with_id(id@)(#[trigger] defs@[j]),
        decreases i,
    {
        if defs[i - 1].id == *id {
            proof {
                assert(definition_with_id(id@)(defs@[i - 1]));
                lemma_last_index_is(defs@, definition_with_id(id@), i - 1);
            }
            return Some(defs[i - 1].kind);
        }
        i = i - 1;
    }
    proof {
        lemma_last_index_is(defs@, definition_with_id(id@), -1);
    }
    None
}

fn model_available(catalog: &RpgScenarioCatalog) -> (b: bool)
    ensures
        b == line_of_effect_model_available(catalog),
{
    match &catalog.line_of_effect_model {
        Some(m) => m.id == text("line-of-effect.square-grid-supercover") && m.version == 1,
        None => false,
    }
}

fn capability_findings(
    catalog: &RpgScenarioCatalog,
    caps: &Vec<RpgCellCapabilitySetup>,
    k: usize,
    path: &String,
) -> (out: Vec<RpgScenarioDiagnostic>)
    requires
        k < caps@.len(),
    ensures
        diagnostic_texts(out@) == capability_diagnostics(catalog, caps@, k as int, path@),
{
    let c = &caps[k];
    let ghost earlier = caps@.take(k as int);
    let mut out: Vec<RpgScenarioDiagnostic> = Vec::new();
    let mut id_repeated = false;
    let mut traversal_seen = false;
    let mut obstruction_seen = false;
    let mut j: usize = 0;
    while j < k
        invariant
            k < caps@.len(),
            earlier == caps@.take(k as int),
            c == caps@[k as int],
            j <= k,
            id_repeated == exists|q: int| 0 <= q < j && (#[trigger] earlier[q]).id@ == c.id@,
            traversal_seen == exists|q: int| 0 <= q < j && is_traversal(#[trigger] earlier[q]),
            obstruction_seen == exists|q: int| 0 <= q < j && is_obstruction(#[trigger] earlier[q]),
        decreases k - j,
    {
        let e = &caps[j];
        assert(earlier[j as int] == *e);
        if e.id == c.id {
            id_repeated = true;
        }
        match e.value {
            RpgCellCapabilityValue::Traversal { .. } => {
                traversal_seen = true;
            },
            RpgCellCapabilityValue::LineOfEffectObstruction { .. } => {
                obstruction_seen = true;
            },
            _ => {},
        }
        j = j + 1;
    }
    let ghost acc0 = diagnostic_texts(out@);
    if blank(c.id.as_str()) || id_repeated {
        push_diagnostic(
            &mut out,
            "RPG_SCENARIO_CELL_CAPABILITY_ID_INVALID",
            join(path.as_str(), ".id"),
            text("cell capability identity must be non-empty and unique per cell"),
        );
    }
    let ghost acc1 = diagnostic_texts(out@);
    if c.version == 0 {
        push_diagnostic(
            &mut out,
            "RPG_SCENARIO_CELL_CAPABILITY_VERSION_INVALID",
            join(path.as_str(), ".version"),
            text("cell capability version must be positive"),
        );
    }
    let ghost acc2 = diagnostic_texts(out@);
    let reserved = text(RPG_LINE_OF_EFFECT_OBSTRUCTION_ID);
    let typed_obstruction = match c.value {
        RpgCellCapabilityValue::LineOfEffectObstruction { .. } => true,
        _ => false,
    };
    if c.id == reserved && !typed_obstruction {
        push_diagnostic(
            &mut out,
            "RPG_SCENARIO_LINE_OF_EFFECT_OBSTRUCTION_INVALID",
            path.clone(),
            text("the reserved line-of-effect obstruction identity requires its typed value"),
        );
    }
    let ghost acc3 = diagnostic_texts(out@);
    match &c.definition_id {
        None => {},
        Some(d) => match definition_kind_of(catalog, d) {
            None => {
                push_diagnostic(
                    &mut out,
                    "RPG_SCENARIO_DEFINITION_UNKNOWN",
                    join(path.as_str(), ".definitionId"),
                    join3("definition ", d.as_str(), " is not in the bound artifact"),
                );
            },
            Some(RpgDefinitionKind::Support) => {},
            Some(_) => {
                push_diagnostic(
                    &mut out,
                    "RPG_SCENARIO_CELL_DEFINITION_INCOMPATIBLE",
                    join(path.as_str(), ".definitionId"),
                    text("cell capabilities must reference an artifact support definition"),
                );
            },
        },
    }
    let ghost acc4 = diagnostic_texts(out@);
    match &c.value {
        RpgCellCapabilityValue::Traversal { movement_cost, .. } => {
            if traversal_seen || *movement_cost == 0 {
                push_diagnostic(
                    &mut out,
                    "RPG_SCENARIO_CELL_TRAVERSAL_INVALID",
                    join(path.as_str(), ".value"),
                    text("a cell permits one traversal capability with positive movement cost"),
                );
            }
        },
        RpgCellCapabilityValue::LineOfEffectObstruction { .. } => {
            if obstruction_seen || c.id != reserved || c.version
                != RPG_LINE_OF_EFFECT_OBSTRUCTION_VERSION || c.definition_id.is_some()
                || !model_available(catalog) {
                push_diagnostic(
                    &mut out,
                    "RPG_SCENARIO_LINE_OF_EFFECT_OBSTRUCTION_INVALID",
                    path.clone(),
                    text(
                        "line-of-effect obstruction requires one line-of-effect.obstruction@1 fact per cell, no definition, and the square-grid-supercover Ruleset model",
                    ),
                );
            }
        },
        RpgCellCapabilityValue::Identifier { value_id } => {
            if blank(value_id.as_str()) {
                push_diagnostic(
                    &mut out,
                    "RPG_SCENARIO_CELL_VALUE_ID_EMPTY",
                    join(path.as_str(), ".value.valueId"),
                    text("cell capability value identity must not be empty"),
                );
            }
        },
        _ => {},
    }
    proof {
        assert(diagnostic_texts(out@) =~= capability_diagnostics(catalog, caps@, k as int, path@));
    }
    out
}

fn cell_findings(catalog: &RpgScenarioCatalog, board: &RpgBoardSetup, i: usize) -> (out: Vec<
    RpgScenarioDiagnostic,
>)
    requires
        i < board.cells@.len(),
    ensures
        diagnostic_texts(out@) == cell_diagnostics(catalog, board, i as int),
{
    proof {
        reveal_strlit("");
    }
    let cells = &board.cells;
    let cell = &cells[i];
    let path = indexed_path("$.board.cells", i, "");
    assert(path@ == indexed("$.board.cells"@, i as nat, Seq::empty()));
    let mut id_repeated = false;
    let mut position_repeated = false;
    let mut j: usize = 0;
    while j < i
        invariant
            i < cells@.len(),
            cells == board.cells,
            *cell == cells@[i as int],
            j <= i,
            id_repeated == exists|q: int| 0 <= q < j && (#[trigger] cells@[q]).id@ == cell.id@,
            position_repeated == exists|q: int|
                0 <= q < j && (#[trigger] cells@[q]).position == cell.position,
        decreases i - j,
    {
        if cells[j].id == cell.id {
            id_repeated = true;
        }
        if cells[j].position == cell.position {
            position_repeated = true;
        }
        j = j + 1;
    }
    let mut out: Vec<RpgScenarioDiagnostic> = Vec::new();
    if blank(cell.id.as_str()) || id_repeated {
        push_diagnostic(
            &mut out,
            "RPG_SCENARIO_CELL_ID_INVALID",
            join(path.as_str(), ".id"),
            text("cell identity must be non-empty and unique"),
        );
    }
    if position_repeated {
        push_diagnostic(
            &mut out,
            "RPG_SCENARIO_CELL_POSITION_DUPLICATE",
            join(path.as_str(), ".position"),
            text("only one cell record may describe a board position"),
        );
    }
    if !(cell.position.x < board.width && cell.position.y < board.height) {
        push_diagnostic(
            &mut out,
            "RPG_SCENARIO_CELL_OUT_OF_BOUNDS",
            join(path.as_str(), ".position"),
            text("cell position is outside the board extent"),
        );
    }
    let caps = &cell.capabilities;
    let cap_prefix = join(path.as_str(), ".capabilities");
    let mut k: usize = 0;
    let ghost head = diagnostic_texts(out@);
    while k < caps.len()
        invariant
            caps == cell.capabilities,
            k <= caps@.len(),
            cap_prefix@ == path@ + ".capabilities"@,
            diagnostic_texts(out@) == head + capabilities_diagnostics(
                catalog,
                caps@,
                k as int,
                path@,
            ),
        decreases caps.len() - k,
    {
        proof {
            reveal_strlit("");
        }
        let cap_path = indexed_path(cap_prefix.as_str(), k, "");
        assert(cap_path@ == indexed(path@ + ".capabilities"@, k as nat, Seq::empty()));
        let found = capability_findings(catalog, caps, k, &cap_path);
        append_diagnostics(&mut out, found);
        proof {
            assert(head + capabilities_diagnostics(catalog, caps@, k + 1, path@) =~= head
                + capabilities_diagnostics(catalog, caps@, k as int, path@) + capability_diagnostics(
                catalog,
                caps@,
                k as int,
                cap_path@,
            ));
        }
        k = k + 1;
    }
    proof {
        assert(diagnostic_texts(out@) =~= cell_diagnostics(catalog, board, i as int));
    }
    out
}

/// Validates a scenario board against its artifact: extent, unique cell
/// identities and positions, in-bounds cells, and well-formed capability facts.
pub fn validate_board(catalog: &RpgScenarioCatalog, board: &RpgBoardSetup) -> (out: Vec<
    RpgScenarioDiagnostic,
>)
    ensures
        diagnostic_texts(out@) == board_diagnostics(catalog, board),
{
    let mut out: Vec<RpgScenarioDiagnostic> = Vec::new();
    if board.width == 0 || board.height == 0 || board.width > MAXIMUM_BOARD_EXTENT || board.height
        > MAXIMUM_BOARD_EXTENT {
        push_diagnostic(
            &mut out,
            "RPG_SCENARIO_BOARD_EXTENT_INVALID",
            text("$.board"),
            text("board width and height must be within 1..=1024"),
        );
    }
    let ghost head = diagnostic_texts(out@);
    let mut i: usize = 0;
    while i < board.cells.len()
        invariant
            i <= board.cells@.len(),
            diagnostic_texts(out@) == head + cells_diagnostics(catalog, board, i as int),
        decreases board.cells.len() - i,
    {
        let found = cell_findings(catalog, board, i);
        append_diagnostics(&mut out, found);
        proof {
            assert(head + cells_diagnostics(catalog, board, i + 1) =~= head + cells_diagnostics(
                catalog,
                board,
                i as int,
            ) + cell_diagnostics(catalog, board, i as int));
        }
        i = i + 1;
    }
    proof {
        assert(diagnostic_texts(out@) =~= board_diagnostics(catalog, board));
    }
    out
}

/// No finding in `ds` carries the out-of-bounds code.
pub open spec fn free_of_bounds_code(ds: Seq<DiagnosticText>) -> bool {
    forall|k: int| 0 <= k < ds.len() ==> (#[trigger] ds[k]).0 != "RPG_SCENARIO_CELL_OUT_OF_BOUNDS"@
}

proof fn lemma_free_concat(a: Seq<DiagnosticText>, b: Seq<DiagnosticText>)
    requires
        free_of_bounds_code(a),
        free_of_bounds_code(b),
    ensures
        free_of_bounds_code(a + b),
{
    assert forall|k: int| 0 <= k < (a + b).len() implies (#[trigger] (a + b)[k]).0
        != "RPG_SCENARIO_CELL_OUT_OF_BOUNDS"@ by {
        if k < a.len() {
            assert((a + b)[k] == a[k]);
        } else {
            assert((a + b)[k] == b[k - a.len()]);
        }
    }
}

proof fn lemma_free_one(c: bool, code: Seq<char>, path: Seq<char>, message: Seq<char>)
    requires
        code != "RPG_SCENARIO_CELL_OUT_OF_BOUNDS"@,
    ensures
        free_of_bounds_code(only_if(c, one(code, path, message))),
        free_of_bounds_code(one(code, path, message)),
{
}

proof fn lemma_capability_codes(
    catalog: &RpgScenarioCatalog,
    caps: Seq<RpgCellCapabilitySetup>,
    k: int,
    path: Seq<char>,
)
    ensures
        free_of_bounds_code(capability_diagnostics(catalog, caps, k, path)),
{
    let oob = "RPG_SCENARIO_CELL_OUT_OF_BOUNDS"@;
    reveal_strlit("RPG_SCENARIO_CELL_OUT_OF_BOUNDS");
    reveal_strlit("RPG_SCENARIO_CELL_CAPABILITY_ID_INVALID");
    reveal_strlit("RPG_SCENARIO_CELL_CAPABILITY_VERSION_INVALID");
    reveal_strlit("RPG_SCENARIO_LINE_OF_EFFECT_OBSTRUCTION_INVALID");
    reveal_strlit("RPG_SCENARIO_DEFINITION_UNKNOWN");
    reveal_strlit("RPG_SCENARIO_CELL_DEFINITION_INCOMPATIBLE");
    reveal_strlit("RPG_SCENARIO_CELL_TRAVERSAL_INVALID");
    reveal_strlit("RPG_SCENARIO_CELL_VALUE_ID_EMPTY");
    assert("RPG_SCENARIO_CELL_CAPABILITY_ID_INVALID"@.len() != oob.len());
    assert("RPG_SCENARIO_CELL_CAPABILITY_VERSION_INVALID"@.len() != oob.len());
    assert("RPG_SCENARIO_LINE_OF_EFFECT_OBSTRUCTION_INVALID"@.len() != oob.len());
    assert("RPG_SCENARIO_DEFINITION_UNKNOWN"@[13] != oob[13]);
    assert("RPG_SCENARIO_CELL_DEFINITION_INCOMPATIBLE"@.len() != oob.len());
    assert("RPG_SCENARIO_CELL_TRAVERSAL_INVALID"@.len() != oob.len());
    assert("RPG_SCENARIO_CELL_VALUE_ID_EMPTY"@.len() != oob.len());
    let c = caps[k];
    let earlier = caps.take(k);
    let id_invalid = is_blank(c.id@) || exists|j: int|
        0 <= j < k && (#[trigger] earlier[j]).id@ == c.id@;
    let p1 = only_if(
        id_invalid,
        one(
            "RPG_SCENARIO_CELL_CAPABILITY_ID_INVALID"@,
            path + ".id"@,
            "cell capability identity must be non-empty and unique per cell"@,
        ),
    );
    let p2 = only_if(
        c.version == 0,
        one(
            "RPG_SCENARIO_CELL_CAPABILITY_VERSION_INVALID"@,
            path + ".version"@,
            "cell capability version must be positive"@,
        ),
    );
    let p3 = only_if(
        c.id@ == RPG_LINE_OF_EFFECT_OBSTRUCTION_ID@ && !is_obstruction(c),
        one(
            "RPG_SCENARIO_LINE_OF_EFFECT_OBSTRUCTION_INVALID"@,
            path,
            "the reserved line-of-effect obstruction identity requires its typed value"@,
        ),
    );
    let all = capability_diagnostics(catalog, caps, k, path);
    assert forall|m: int| 0 <= m < all.len() implies (#[trigger] all[m]).0 != oob by {
        if m < p1.len() {
        } else if m < p1.len() + p2.len() {
        } else if m < p1.len() + p2.len() + p3.len() {
        } else {
        }
    }
}

proof fn lemma_capabilities_codes(
    catalog: &RpgScenarioCatalog,
    caps: Seq<RpgCellCapabilitySetup>,
    n: int,
    path: Seq<char>,
)
    ensures
        free_of_bounds_code(capabilities_diagnostics(catalog, caps, n, path)),
    decreases n,
{
    if n > 0 {
        lemma_capabilities_codes(catalog, caps, n - 1, path);
        lemma_capability_codes(
            catalog,
            caps,
            n - 1,
            indexed(path + ".capabilities"@, (n - 1) as nat, Seq::empty()),
        );
        lemma_free_concat(
            capabilities_diagnostics(catalog, caps, n - 1, path),
            capability_diagnostics(
                catalog,
                caps,
                n - 1,
                indexed(path + ".capabilities"@, (n - 1) as nat, Seq::empty()),
            ),
        );
    }
}

/// The finding that reports cell `i` outside the board extent.
pub open spec fn out_of_bounds_finding(i: int) -> DiagnosticText {
    (
        "RPG_SCENARIO_CELL_OUT_OF_BOUNDS"@,
        indexed("$.board.cells"@, i as nat, Seq::empty()) + ".position"@,
        "cell position is outside the board extent"@,
    )
}

proof fn lemma_cell_bounds(catalog: &RpgScenarioCatalog, board: &RpgBoardSetup, i: int)
    requires
        0 <= i < board.cells@.len(),
    ensures
        ({
            let cd = cell_diagnostics(catalog, board, i);
            let p = board.cells@[i].position;
            &&& (p.x >= board.width || p.y >= board.height) ==> cd.contains(out_of_bounds_finding(i))
            &&& forall|k: int|
                0 <= k < cd.len() && (#[trigger] cd[k]).0 == "RPG_SCENARIO_CELL_OUT_OF_BOUNDS"@
                    ==> cd[k] == out_of_bounds_finding(i) && (p.x >= board.width || p.y
                    >= board.height)
        }),
{
    let oob = "RPG_SCENARIO_CELL_OUT_OF_BOUNDS"@;
    reveal_strlit("RPG_SCENARIO_CELL_OUT_OF_BOUNDS");
    reveal_strlit("RPG_SCENARIO_CELL_ID_INVALID");
    reveal_strlit("RPG_SCENARIO_CELL_POSITION_DUPLICATE");
    assert("RPG_SCENARIO_CELL_ID_INVALID"@.len() != oob.len());
    assert("RPG_SCENARIO_CELL_POSITION_DUPLICATE"@.len() != oob.len());
    let cells = board.cells@;
    let cell = cells[i];
    let path = indexed("$.board.cells"@, i as nat, Seq::empty());
    let a = only_if(
        is_blank(cell.id@) || exists|j: int| 0 <= j < i && (#[trigger] cells[j]).id@ == cell.id@,
        one(
            "RPG_SCENARIO_CELL_ID_INVALID"@,
            path + ".id"@,
            "cell identity must be non-empty and unique"@,
        ),
    );
    let b = only_if(
        exists|j: int| 0 <= j < i && (#[trigger] cells[j]).position == cell.position,
        one(
            "RPG_SCENARIO_CELL_POSITION_DUPLICATE"@,
            path + ".position"@,
            "only one cell record may describe a board position"@,
        ),
    );
    let c = only_if(
        !position_in_board_spec(board, cell.position),
        one(
            "RPG_SCENARIO_CELL_OUT_OF_BOUNDS"@,
            path + ".position"@,
            "cell position is outside the board extent"@,
        ),
    );
    let caps = capabilities_diagnostics(catalog, cell.capabilities@, cell.capabilities@.len() as int, path);
    lemma_capabilities_codes(catalog, cell.capabilities@, cell.capabilities@.len() as int, path);
    let cd = cell_diagnostics(catalog, board, i);
    assert(cd == a + b + c + caps);
    let out = !(cell.position.x < board.width && cell.position.y < board.height);
    if out {
        assert(cd[(a.len() + b.len()) as int] == c[0]);
        assert(c[0] == out_of_bounds_finding(i));
    }
    assert forall|k: int|
        0 <= k < cd.len() && (#[trigger] cd[k]).0 == oob implies cd[k] == out_of_bounds_finding(i)
            && out by {
        if k < a.len() {
            assert(cd[k] == a[k]);
        } else if k < a.len() + b.len() {
            assert(cd[k] == b[k - a.len()]);
        } else if k < a.len() + b.len() + c.len() {
            assert(cd[k] == c[k - a.len() - b.len()]);
        } else {
            assert(cd[k] == caps[k - a.len() - b.len() - c.len()]);
        }
    }
}

proof fn lemma_cells_bounds(catalog: &RpgScenarioCatalog, board: &RpgBoardSetup, n: int)
    requires
        0 <= n <= board.cells@.len(),
    ensures
        ({
            let ds = cells_diagnostics(catalog, board, n);
            &&& forall|i: int|
                0 <= i < n && ((#[trigger] board.cells@[i]).position.x >= board.width
                    || board.cells@[i].position.y >= board.height) ==> ds.contains(
                    out_of_bounds_finding(i),
                )
            &&& forall|k: int|
                0 <= k < ds.len() && (#[trigger] ds[k]).0 == "RPG_SCENARIO_CELL_OUT_OF_BOUNDS"@
                    ==> exists|i: int|
                    0 <= i < n && ((#[trigger] board.cells@[i]).position.x >= board.width
                        || board.cells@[i].position.y >= board.height) && ds[k]
                        == out_of_bounds_finding(i)
        }),
    decreases n,
{
    if n > 0 {
        lemma_cells_bounds(catalog, board, n - 1);
        lemma_cell_bounds(catalog, board, n - 1);
        let prior = cells_diagnostics(catalog, board, n - 1);
        let cd = cell_diagnostics(catalog, board, n - 1);
        let ds = cells_diagnostics(catalog, board, n);
        assert(ds == prior + cd);
        assert forall|i: int|
            0 <= i < n && ((#[trigger] board.cells@[i]).position.x >= board.width
                || board.cells@[i].position.y >= board.height) implies ds.contains(
                out_of_bounds_finding(i),
            ) by {
            if i < n - 1 {
                let m = choose|m: int| 0 <= m < prior.len() && prior[m] == out_of_bounds_finding(i);
                assert(ds[m] == prior[m]);
            } else {
                let m = choose|m: int| 0 <= m < cd.len() && cd[m] == out_of_bounds_finding(i);
                assert(ds[prior.len() + m] == cd[m]);
            }
        }
        assert forall|k: int|
            0 <= k < ds.len() && (#[trigger] ds[k]).0 == "RPG_SCENARIO_CELL_OUT_OF_BOUNDS"@
                implies exists|i: int|
                0 <= i < n && ((#[trigger] board.cells@[i]).position.x >= board.width
                    || board.cells@[i].position.y >= board.height) && ds[k]
                    == out_of_bounds_finding(i) by {
            if k < prior.len() {
                assert(ds[k] == prior[k]);
                let i = choose|i: int|
                    0 <= i < n - 1 && ((#[trigger] board.cells@[i]).position.x >= board.width
                        || board.cells@[i].position.y >= board.height) && prior[k]
                        == out_of_bounds_finding(i);
                assert(board.cells@[i] == board.cells@[i]);
            } else {
                assert(ds[k] == cd[k - prior.len()]);
                assert(cd[k - prior.len()].0 == "RPG_SCENARIO_CELL_OUT_OF_BOUNDS"@);
                assert(board.cells@[n - 1] == board.cells@[n - 1]);
            }
        }
    }
}

/// Board validation reports a cell outside the board exactly when its
/// column is not below the board's width or its row not below the board's
/// height: each such cell gets the out-of-bounds finding at its position's
/// path, and every out-of-bounds finding names such a cell.
pub proof fn lemma_board_bounds_law(catalog: &RpgScenarioCatalog, board: &RpgBoardSetup)
    ensures
        forall|i: int|
            0 <= i < board.cells@.len() && ((#[trigger] board.cells@[i]).position.x >= board.width
                || board.cells@[i].position.y >= board.height) ==> board_diagnostics(
                catalog,
                board,
            ).contains(out_of_bounds_finding(i)),
        forall|k: int|
            0 <= k < board_diagnostics(catalog, board).len() && (#[trigger] board_diagnostics(
                catalog,
                board,
            )[k]).0 == "RPG_SCENARIO_CELL_OUT_OF_BOUNDS"@ ==> exists|i: int|
                0 <= i < board.cells@.len() && ((#[trigger] board.cells@[i]).position.x
                    >= board.width || board.cells@[i].position.y >= board.height)
                    && board_diagnostics(catalog, board)[k] == out_of_bounds_finding(i),
{
    let n = board.cells@.len() as int;
    lemma_cells_bounds(catalog, board, n);
    reveal_strlit("RPG_SCENARIO_CELL_OUT_OF_BOUNDS");
    reveal_strlit("RPG_SCENARIO_BOARD_EXTENT_INVALID");
    assert("RPG_SCENARIO_BOARD_EXTENT_INVALID"@.len() != "RPG_SCENARIO_CELL_OUT_OF_BOUNDS"@.len());
    let head = only_if(
        board_extent_invalid(board),
        one(
            "RPG_SCENARIO_BOARD_EXTENT_INVALID"@,
            "$.board"@,
            "board width and height must be within 1..=1024"@,
        ),
    );
    let cs = cells_diagnostics(catalog, board, n);
    let bd = board_diagnostics(catalog, board);
    assert(bd == head + cs);
    assert forall|i: int|
        0 <= i < board.cells@.len() && ((#[trigger] board.cells@[i]).position.x >= board.width
            || board.cells@[i].position.y >= board.height) implies bd.contains(
            out_of_bounds_finding(i),
        ) by {
        let m = choose|m: int| 0 <= m < cs.len() && cs[m] == out_of_bounds_finding(i);
        assert(bd[head.len() + m] == cs[m]);
    }
    assert forall|k: int|
        0 <= k < bd.len() && (#[trigger] bd[k]).0 == "RPG_SCENARIO_CELL_OUT_OF_BOUNDS"@
            implies exists|i: int|
            0 <= i < board.cells@.len() && ((#[trigger] board.cells@[i]).position.x
                >= board.width || board.cells@[i].position.y >= board.height) && bd[k]
                == out_of_bounds_finding(i) by {
        if k >= head.len() {
            assert(bd[k] == cs[k - head.len()]);
        }
    }
}

} // verus!
