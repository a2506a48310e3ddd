# deps_core

The core of a dependency assistant for package manifests, written and verified in Verus: it
classifies version bumps, plans and applies manifest edits, routes documents to package
ecosystems, scans unparsed manifests for completion contexts, and assembles freshness, advisory
and supply-chain signals.

- `src/` holds what is decided. Every function states what it returns or changes in terms of
  mathematical sequences, maps and sets; the public `law_*` proof functions state what holds
  across functions.
- `app/` holds what touches the outside world: HTTP, the file system, the clock, wire formats and
  the language server's types. It asks `src/` what to do next and hands back what came of it.
- `tests/` runs the library on concrete values.

Calls into other crates stand behind small items whose contracts are believed without proof.
Their doc comments name the outside function and say what is claimed of it:
`text.rs`, `error.rs`, `freshness.rs`, `fs_probe.rs`, `index.rs`, `json.rs`, `diagnostic.rs` and
`deps_dev/requests.rs`.

Times are milliseconds of a clock that the caller reads, so that every decision about freshness,
expiry and throttling is a function of its arguments.
