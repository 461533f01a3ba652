# mj_server

Verified core of a home-use A-share research and paper-trading server
(quotes, technical signals, signal follow-up returns, a paper account, a
five-role model analysis and a WebSocket hub).

- `src/` — the library, written in Verus. Every function carries a contract
  stated over `Seq` views and spec functions, and is proved:
  - `text` — string operations (trimming, splitting, searching, number
    parsing, JSON-object framing) stated over the characters of a string;
  - `market` — quote-code prefixes, Eastmoney `secid`, quoted payload framing,
    quote-time formatting, response decoding (UTF-8, else GBK);
  - `export` — CSV escaping and rows, percent-encoded download names, limits;
  - `ws` — topics, events and the subscription registry of the hub;
  - `universe` — watch-list and index-universe requests;
  - `signals` — signal levels and scan defaults;
  - `paper` — order sides, board price-limit bands, lot sizes, order status
    transitions, risk-state tallies;
  - `perf` — follow-up windows, fire dates and the anchor bar of a signal;
  - `research` — news feeds, RSS and Eastmoney headlines, headline merging,
    headline tone counts;
  - `ai` — the five roles, their local decision tables, remote-model
    configuration and candidate selection;
  - `config` — the reported status of the environment file.
  Public `law_*` proof functions state properties that span several calls.
- `tests/` — tests of the library on concrete values.
- `app/` — the server itself (Axum routes, SQLite, HTTP fetching, WebSocket
  sockets, floating-point indicators, money and scoring), which calls the
  library for the decisions above. It expects the schema at
  `mj-server/migrations/001_init.sql`, or the path in `MJ_MIGRATION_SQL`.
