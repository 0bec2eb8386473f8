# litquid

Converts Liquid templates into Lit template modules with SSR hydration support.

`src/` is the verified library:

- `chars` — character-sequence helpers (trimming as `str::trim` does, prefix and
  suffix tests, search, left-to-right replacement);
- `template` — `${...}` interpolations, the static strings between them, SSR slot
  markers, the `<template ...>` wrapper;
- `digest` — the Lit template digest (two DJB2 accumulators over UTF-16 units) and
  Base64;
- `liquid` — `{{ ... }}` blocks: pipe splitting, filters, the translation of a
  filter chain to JavaScript, `csr` bindings;
- `codegen` — the `TargetEmitter` trait and the `--emit` target list;
- `reload` — the live-reload client list;
- `laws` — properties relating the functions above;
- `lib.rs` — the public API (`process_liquid_content`, `split_template_strings`,
  `compute_template_digest`, `generate_ssr_wrapper`, `generate_js_module`,
  `ParsedTemplate`).

`app/` holds the command-line preprocessor and the watch server (file system,
HTTP, file watching).
