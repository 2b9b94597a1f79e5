# splusnpp

The front end of the S+N++ language and its package tooling, written in Verus:
every function in `src/` carries a contract over a mathematical model of its
data, and Verus proves the code against it. Three small functions wrap std
calls whose contracts are taken on trust: `text::push_char` (`String::push`),
`text::debug_quoted` (`str`'s `Debug` rendering) and `registry::parse_status`
(`str::parse::<u16>`).

- `text` — character-level helpers: trimming, searching, line splitting, decimal rendering, text order.
- `lexer`, `parser`, `ast` — tokens, the recursive-descent grammar and the syntax tree, each production stated as a spec function.
- `typecheck`, `table` — type, definite-assignment and ownership analysis over name-keyed tables.
- `stdlib` — the standard-library module registry and import resolution.
- `package`, `version` — `snp.toml` manifests, import validation, local dependency resolution, semantic versions and constraints.
- `json`, `registry` — the registry index document, its validation, version selection, response handling and the redirect policy.
- `cli` — what the command line prints: values, diagnostics, check verdicts.

`app/` is the `snp` command around the library: argument handling, files, and
the `curl` transfer. `tests/` runs the library on concrete inputs.
