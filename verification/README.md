# proviz

A search-engine router: callers send one search (or page-content) request,
and the service picks an available provider key, falls back through other
providers on errors, tracks rate limits and caches answers.

## Layout

- `src/` — the verified library, checked by Verus. Every public function
  carries a contract over mathematical models (`Seq`, `Map`, views), and the
  properties that span several functions are stated and proved as `law_*`
  proof functions next to the code they are about.
  - `rate_limit` — cooldowns after errors and sliding-window request budgets.
  - `language_profile`, `selector` — routing profiles and the hard filters
    of provider selection, with the integer inputs of scoring.
  - `catalog`, `executor`, `content` — candidate pools, priority tiers and
    the fallback chains of searches and page fetches, as state machines that
    the caller drives.
  - `cache`, `service` — results and document caches, and the decisions of
    the HTTP endpoints.
  - `providers` — status mapping and the result shaping shared by all
    provider adapters.
  - `keys`, `config`, `errors`, `seed`, `stats`, `models`, `text` — key
    reference resolution, settings, error answers, seeding from the
    environment, search statistics, data model and string helpers.
  - `tables` — the `dashmap` tables behind the caches and trackers, seen
    through what they hold.
- `app/` — the server around the library: HTTP (axum), provider adapters
  (reqwest), storage (SQLite or PostgreSQL), JSON and TOML decoding, and the
  floating-point scoring of eligible candidates.
- `tests/` — tests of the library on concrete values.
