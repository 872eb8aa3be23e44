# svg_toolkit

Structured SVG specification facts and the logic built on them, written in
Verus: every function in `src/` carries a contract that Verus proves.

- `src/` — the verified library: compatibility verdicts and hover text
  (`verdict`, `hover`, `hover_details`, `hover_settings`), the compat data
  model and its JSON reading and writing (`compat`, `compat_json`,
  `compat_refresh`, `compat_catalog`, `compat_collect`, `facts_json`,
  `catalog_refresh`), specification prose extraction (`lifecycle_prose`,
  `chapter_page`, `aria`, `legacy`, `spec_lifecycle`), value grammars and
  value spaces (`grammar`, `value_space`, `values`), namespaces, closing-tag
  recovery and text utilities.
- `app/` — a command-line shell that reads local files, hands their text to
  the library and prints or writes what comes back.
- `tests/` — tests run against the compiled library with the real outside
  crates linked.

The outside crates `tl`, `regex`, `url`, `quick-xml` and `serde_json` are
called from `src/` through small trusted wrappers whose contracts are stated
next to them.
