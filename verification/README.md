# intune_core

The verified core of a cross-platform Intune Manager: the logic behind
browsing, exporting, importing, copying, comparing and documenting Microsoft
Intune objects through the Microsoft Graph beta API. Every function in `src/`
is verified by Verus, except a few small trusted wrappers around `std`,
`serde_json` and `time` whose contracts state what those libraries document;
the HTTP server around the library lives in `app/`.

## Layout

- `src/json.rs` — JSON values and their model: member lookup and insertion in
  key order, compact and indented text, nesting depth.
- `src/text.rs`, `src/labels.rs`, `src/order.rs` — character-level helpers,
  readable labels, and stable sorting with its guarantees.
- `src/catalog.rs` — object types, lookup, import priority.
- `src/compare.rs` — property-level diff that ignores volatile fields.
- `src/documentation.rs` — documentation sections, Markdown, HTML and JSON.
- `src/auth.rs`, `src/token_store.rs` — sign-in requests, token answers,
  session expiry and renewal, what is kept across restarts.
- `src/graph.rs` — Graph URLs, retry decisions, failure messages, paging.
- `src/backend.rs` — naming, payload preparation, listing, copying, export,
  bulk import planning and bulk compare matching.
- `app/` — the axum HTTP sidecar: Graph and token-endpoint exchanges, files,
  the OS keyring, and JSON encoding of results.
- `tests/` — tests of the library on concrete values.

The object-type catalog is read at start-up from `catalog.json` (or the file
named by `INTUNE_CATALOG`).
