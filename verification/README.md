# stock_analysis

A stock analysis REST service (SEC EDGAR, Yahoo Finance and Financial Modeling
Prep data; sector and small/mid-cap screens; user portfolios; an AI-managed
portfolio). The service's rules live in a library verified with Verus; the
HTTP server around it is ordinary Rust.

## Layout

- `src/` — the verified library. Every public function states its result in
  `ensures`, over spec functions and views; the `law_*` proof functions state
  properties that span functions (sorting, selection caps, rebalance plans,
  market-cap sub-ranges, cache keys, directory lookups, search merging).
  - `sectors`, `screener`, `discovery`, `sp500` — sector universes, scoring
    models, exchange and query validation, market-cap pre-filter and bands.
  - `ai_portfolio` — hybrid candidate selection, sentiment veto, rebalance plan,
    rebalance-cycle labels.
  - `xbrl`, `statements`, `fundamentals`, `cik` — EDGAR fact extraction, statement
    rows and backfill, fiscal-year alignment, the ticker directory and search.
  - `portfolio`, `import` — CSV/spreadsheet holdings import, import summaries,
    the community view.
  - `auth`, `crypto`, `error` — request validation, Argon2 password hashing,
    AES-GCM key storage, error statuses and messages.
  - `yahoo`, `fmp`, `models`, `text`, `sorting` — provider response handling
    (RSS feeds, chart bars by UTC day, search merging),
    API models, verified string and sorting helpers.
- `app/` — the axum server: configuration, HTTP clients, database access,
  floating-point valuation formulas, and the JSON types.
- `tests/` — tests of the library on concrete values.

Numbers that the library carries through without reading them (prices,
ratios) are generic type parameters; the server instantiates them with `f64`.
