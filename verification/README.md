# infinite_flux

The game logic of a factory-building space trading game, written in Verus:
every function in `src/` carries a contract that Verus proves.

- `src/` — the verified library: credits and wallets, order books and
  matching, contracts, items, recipes, skills, inventories, machines, drills,
  transport lines, blueprints, the building map, throughput tracking, fleets,
  loot, the wire protocol's framing, the server's answers, and the decisions
  behind the client's panels (markets, job board, logistics, fleet command,
  blueprints, statistics, chat, tutorial).
- `tests/` — tests of the library on concrete values.
- `app/` — the dedicated server program around the library (network thread,
  serialization, save files) and the parts that compute in floating point
  (combat, power ratio, progress accumulators, orbit geometry).
