# karu

Karu is a policy language in the spirit of Polar: rules `allow name if ...` and
`deny name if ...` over JSON requests, with structural pattern matching, inline
test blocks and an optional schema. This crate is its verified core, written in
Verus: every function in `src/` carries a contract, and Verus proves the code
against it.

## Layout

- `src/` — the verified library.
  - JSON model, paths, patterns and matching: `json`, `json_ops`, `path`,
    `pattern`, `matcher`, `bindings`, `glob`.
  - Karu source: `karu_lexer`, `karu_syntax` (the grammar as spec functions),
    `karu_parser`, `ast`, `schema`, `lint`.
  - Cedar interoperability: `cedar_lexer`, `cedar_syntax`, `cedar_parser`,
    `cedar_grammar`, the schema counterparts `cedar_schema_*`,
    `cedar_translation` (what an import yields, as spec functions) and
    `cedar_import`.
  - Policies: `compiler` turns a parsed program into a `Policy` (assertions
    inlined, host checks, type references) and decides requests: a deny rule
    that applies wins, else an allow rule that applies, else deny.
    Comparisons it does not compute (fractional numbers, IP addresses,
    decimals, `is` shapes) leave a decision undecided (`None`).
    `inline_tests` runs a file's `test` blocks against its policy, with
    per-rule coverage.
  - Editor support: `lsp_core` (hover, completions, diagnostics, semantic
    tokens), `lsp` (Cedar diagnostics, outline and semantic tokens; rule
    locations and go to definition), `outline` (the Karu outline: schema,
    rules and tests), `schema_check` (field reads, comparisons and `is`
    guards checked against the schema), `diff`.
  - Multi-file projects: `resolver`, a step function that follows imports
    and merges programs; the caller performs the loads.
  - `laws.rs` — properties that relate several functions, stated and proved
    for all inputs.
  - `text.rs` — character and string helpers; the few calls into `std` and
    `serde_json` whose behaviour is trusted stand there, each with its
    contract.
- `tests/` — tests run against the compiled library.
- `app/` — ordinary Rust around the library: conversion to and from
  `serde_json` values, serde copies of the editor types, error types with
  `Display`, the reading of numbers as `f64`, which the library does not
  hold, and the loop that drives the resolver with a file or memory loader.

## Numbers

Number literals in Karu source are read as `f64`. The library keeps no
floating point: a parser entry takes a table of readings (`NumberReading`),
one per number text, and `app/` fills it.
