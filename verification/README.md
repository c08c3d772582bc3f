# fastymllint

A YAML linter with yamllint-compatible diagnostics, auto-fix and
auto-format modes, whose core is verified with Verus.

## Layout

- `src/` — the verified library.
  - `pyyaml/` — the YAML scanner, event parser and document loader, with
    the marks and error messages of PyYAML; scalar tag resolution.
  - `linter.rs` — lines, tokens and comments of a document; the
    `# yamllint disable...` directives; syntax errors among the problems.
  - `rules/` — the lint rules, each with a specification of what it
    reports; `rule_set.rs` runs them and applies their fixes.
  - `fix/` — the line-based document model, the fix operations, each
    rule's fixer, and the engine that lints and fixes in passes.
  - `yaml_config.rs` — presets and the merging of configurations.
  - `output.rs`, `cli.rs` — report rendering and command-line decisions.
  - `text.rs`, `decoder.rs` — characters, lines and input decoding.
- `app/` — the command-line program: arguments, files, configuration
  discovery, terminal and JSON output.
- `tests/` — tests of the library.
