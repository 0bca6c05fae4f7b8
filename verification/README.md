# steam-link-matcher

Matches game names from lists (TXT, CSV, XLSX) to Steam store pages: it
cleans each name, searches the store, ranks the candidates, recommends the
best one or marks it for review, takes manual corrections, caches results and
exports them as CSV or XLSX.

## Layout

- `src/` is the library, written in Verus: every function there carries a
  contract and is verified.
  - `normalize`, `text`: name cleaning, comparison form, cache keys.
  - `search`, `candidate`: reading store search pages, scoring and ranking.
  - `matching`, `store`: the match decision, cache reuse, manual corrections,
    store links.
  - `fetch`, `settings`: request pacing and retries, proxy and delay settings.
  - `import`, `xlsx`, `export`, `paths`, `message`: files in and out.
  - `ext`: the calls into std and outside crates, each with the contract the
    rest relies on.
  - `laws`: proof functions for properties that span several functions.
- `tests/` runs the library on concrete inputs.
- `app/` is the shell around the library: the commands, the SQLite cache, HTTP
  requests, the title similarity (floating point) and the XLSX writer.
