# transport_core

A headless ship-transport simulation core, verified with Verus.

- `src/types`, `src/world`: identifiers, units with checked arithmetic, the tile map
  (bounds-checked, row-major), entities, towns.
- `src/sim`: the world, commands and their exact effects, the simulator (priority queue
  of commands, outcomes, order schedules, cargo exchange), cargo conservation laws (per
  transfer and over the whole world for a tick), agreement of the station records
  (index, tile lists, map marks) kept by every command and tick,
  and the budgeted A* water pathfinder.
- `src/kernel`, `src/drivers`: the capability microkernel (drivers ordered by priority,
  atomic commit of authorised intents) and its movement, logistics and economy drivers.
- `src/oracle`: projection of world state into trace frames and the first-divergence
  comparator; `src/text.rs` renders values as text.
- `src/tools`: tool state machine, dry-run placement validation, catchments, input
  handling on tiles, ghost overlay marks.
- `app/`: host glue (serde trace files, error display, renderer/dashboard bridges).
- `tests/`: behaviour tests.
