# spg

The input layer of a game-industry signal pipeline, with its contracts
proved by Verus.

Raw items (posts, videos, announcements) are normalized, tied to games or
tracks by their authors, URLs and aliases, given an event kind by keyword
rules, folded onto earlier items when they repeat content or information,
and counted. A small web front end keeps the settings of the outside
providers and unlocks the main view once all of them pass a test.

Layout:

- `src/` — the verified library: text and URL normalization (`text_utils`,
  `urls`, `strs`), the asset index (`assets`), scores in exact `f64` values
  (`scores`), entity resolution (`resolve`), event attribution (`events`),
  duplicate folding (`dedupe`), the pipeline (`pipeline`), run metrics
  (`metrics`), provider settings and tests (`providers`), secret stores
  (`secrets`) and the framing and key of their encrypted file vault
  (`vault`), the galaxy lists (`galaxy`) and the galaxy focus views
  (`focus`). `ext` holds the trusted calls
  into outside crates.
- `tests/` — tests of the library.
- `app/` — the command line, the SQLite stores, the keyring and encrypted
  secret vault, the web server, the page rendering, and the floating-point
  angles, sizes and strengths of the focus views.
