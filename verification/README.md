# zn_core

The core of Zotero Notebook, a desktop assistant that summarizes, files and
cross-references the papers of a Zotero library with the help of a language
model. The logic is written in Verus: the functions under `src/` carry
`requires`/`ensures` contracts that the verifier proves. The exceptions are
the small `#[verifier::external_body]` wrappers around calls into `std`,
`chrono`, `keyring`, `urlencoding` and `http`: their contracts restate what
those libraries document and are trusted, not proved, and the functions
built on them are proved against those contracts.

## Layout

- `src/` — the verified library.
  - `text.rs`: character-level helpers (trimming, ASCII case folding,
    decimal rendering and parsing) with their specifications.
  - `models.rs`, `error.rs`: the data model, storage names and error texts.
  - `classify.rs`: collection-path normalization, tag suggestions,
    rationale trimming and the classify/audit request and proposal logic.
  - `citations.rs`: DOI/title normalization, matching related works
    against the library, citation-query construction.
  - `abstract_lookup.rs`: HTML stripping, whitespace normalization,
    inverted-index reconstruction and the order in which metadata services
    are asked for a missing abstract.
  - `llm/`: prompts, response extraction, error mapping and the
    server-sent-events line buffer of the three model providers.
  - `zotero/`: the companion plugin's protocol and the Zotero local API's
    item mapping and paging.
  - `keychain.rs`, `pricing.rs`, `synthesis.rs`, `commands.rs`: key
    storage outcomes, price tiers, multi-paper context and the decisions
    behind the application's commands.
- `tests/` — executable tests of the library.
- `app/` — plain Rust around the library: HTTP clients, the SQLite sidecar
  database, settings files, serde forms of the library's types and the
  command loops that perform the I/O the library decides on.

Public proof functions whose names begin with `law_` state properties that
span several calls (idempotence, ordering, round trips); Verus proves them
from the same specifications the executable functions are held to.
