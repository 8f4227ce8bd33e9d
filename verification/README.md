# Overseer

A live presentation console for an AzerothCore Playerbots population: it
polls the server's database, turns state changes into a stream of narrated
events, and streams them with the full online roster to browsers.

- `src/` is the verified core: race/class names, the name tables (read
  from and written to JSON, with a proof that a written table reads back
  unchanged), the checked extraction of names from the client's DBC tables
  (`src/dbc.rs`), and every decision of a poll tick (character diff, achievement / guild /
  boss-kill / chat feeds, quest and item known-set diffing, gathering
  skill-ups, groups, the roster), each stage with its contract, the order
  of a tick's queries as a step machine (`src/poller/tick.rs`) that the
  server drives, plus proofs of what holds across ticks
  (`src/poller/laws.rs`).
- `app/` is the server around it: database queries, the timer loop that
  runs each tick's queries as the step machine asks for them,
  WebSocket streaming, JSON shapes, screen coordinates, and the one-time
  `extract-dbc` name extraction from a WoW client.
- `tests/` runs the core on concrete ticks.
