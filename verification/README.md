# legado_source_filter

Filters Legado book sources down to the text sources whose search still
works: a preflight sorts the downloaded source list, then rounds of search
requests test each eligible source against its own search rule.

Layout:

- `src/` — the verified library (Verus). The rule language (`rule_dsl`), the
  search-request builder (`search_url`), URL repair (`url_fixer`), the
  preflight, the per-source test decisions (`tester`), the decisions between
  test rounds (`campaign`), response decoding (`http_client`) and the reading
  of Node's output (`js_polyfill`). Calls into `regex`, `scraper`,
  `serde_json`, `toml`, `encoding_rs` and `chardetng` stand behind small trusted
  wrappers whose contracts name what those crates compute.
- `app/` — the command-line program: argument parsing, file and network I/O,
  the SQLite cache, the async worker pool and the Node subprocess. It hands
  plain values to the library and acts on what comes back.
- `tests/` — tests of the library on concrete values.

The program reads optional Node shims for JavaScript search URLs from
`data/polyfill.js` (or the file named by `LEGADO_POLYFILL`).
