# rpg_runtime

Verified authority rules for compiled RPG encounters. The library states its
behaviour as Verus contracts over mathematical models (`Seq`, `Set`, and spec
functions that read each data type's fields as text and integers) and proves
the executable code against them.

## Layout

- `src/board.rs`, `src/sight.rs`: the board, cell capabilities and the
  supercover line of effect between two positions.
- `src/movement.rs`: reachable destinations within a movement budget.
- `src/area.rs`: area projections (diamonds and orthogonal lines) with the
  cells and participants they include or leave out.
- `src/options.rs`: the participant, cell and area options of an action,
  filtered by line of effect and by the rules' preflight verdicts; stale
  option bindings; preparation of portable area commands.
- `src/items.rs`: the item bindings an actor's equipment offers an action,
  and refusal of a proposed item binding.
- `src/intent.rs`: binding and refusal of proposed cell targets, movement
  paths and line of effect.
- `src/scenario.rs`, `src/setup.rs`: the encounter setup and every diagnostic
  its validation reports.
- `src/turn.rs`: turn order, living participants and the encounter outcome.
- `src/random.rs`: bounded random requests and the roll-tape source.
- `src/saves.rs`: end-of-turn saves against save-ends effects.
- `src/session.rs`: command admission and turn controls.
- `src/restore.rs`: validation of restored encounters and the encounter log.
- `src/replay.rs`: schema identities, fingerprints, artifact compatibility and
  replay boundary comparison.
- `src/model.rs`, `src/text.rs`: shared state facts and text helpers.
- `app/`: serde documents for the library's types, and the clock-seeded
  session binding identifier.
- `tests/`: executable tests of the library.
