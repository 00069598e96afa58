# mtga_hub

The computational core of an MTG Arena companion: card database rows,
collection history, community data sources (EDHREC, Commander Spellbook,
17Lands, Archidekt) and a Brawl / Standard Brawl deck builder. The library
in `src/` is written in Verus; every public function carries a contract and
is proved against it.

## Layout

- `src/text.rs`, `src/numbers.rs` — string and number helpers with exact
  specifications (ASCII case, splitting, decimal formatting and parsing).
- `src/models.rs`, `src/events.rs` — card, rarity and event payload records.
- `src/services/card_db.rs` — rows of the game's card database into card
  records, database file discovery.
- `src/services/history_db.rs` — collection hashing input, query filters,
  retention cut-offs.
- `src/services/diagnostics.rs`, `src/services/image_cache.rs` — the
  diagnostic ring and the image cache's download decisions.
- `src/services/deck/` — card ingest, the deck store's row decoding,
  source cache policy and URL building, staples, the service status and
  calendar keys.
- `src/services/deck/engine/` — request validation, the candidate pool,
  templates, role classification, role choice, running counts, wildcard
  budgets, almost-complete combos, pinned cards and land slots, commander
  availability and deck statistics.
- `src/commands*.rs` — status records, Arena export and seed-deck tallies.
- `tests/` — tests run against the compiled library.
- `app/` — the command-line tool and everything that needs I/O, SQLite,
  serde or floating point (scoring, the greedy fill, local search, the
  upgrade pass and the basic-land split).

Outside crates are reached from `src/` only through small trusted
wrappers (`regex`, `flate2`, `serde_json`), each documented where it is
declared.
