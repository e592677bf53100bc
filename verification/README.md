# rs_codeinsight

A library that sums up a source tree for a reader in a hurry: how files
import each other, what looks dead, where the tests are, what the data layer
is, which conventions the code follows, what the history says, and a compact
report of it all — a header with the totals, the share of each language, and
sections on the stack, code patterns, I/O, features, data layer, key
locations, recent activity, notes, security, tests, organization,
architecture, API surface, issues, dead code, modules and a file index.
Every function of the library carries a `requires`/`ensures` contract that
Verus proves, except the trusted items at its edge: the `tree-sitter`
grammars (`src/lang.rs`), which state nothing of the opaque grammar value;
one parse call per language (`src/analyzer.rs`), whose outcome is the named
result `grammar_parses` of the language and the text; and a few `std`
string and character calls (`src/text.rs`), whose contracts Verus takes on
trust.

## Layout

- `src/text.rs` – the meaning of the string operations used everywhere
  (trimming, splitting, searching, lines, UTF-8 byte offsets, decimals) and
  their executable forms.
- `src/tally.rs`, `src/ranking.rs` – counting occurrences, and ranking
  entries by a key with ties kept in order.
- `src/config.rs` – reading `.codeinsight.toml`.
- `src/lib.rs` – which files a walk of the project collects.
- `src/lang.rs` – file extensions, tree-sitter grammars and short labels.
- `src/analyzer.rs` – the measurements of one file, and the parse step
  that decides whether a file is kept (it counts lines; the syntax-tree
  counts stay at zero).
- `src/aggregate.rs` – adding up the files, and assembling the graph, the
  dead-code report and the compact report from the totals.
- `src/duplicates.rs` – grouping functions by the hash of their bodies.
- `src/depgraph.rs` – the import graph, cycles, outside packages, modules and
  the dead-code report.
- `src/scanner.rs` – TODO/FIXME/HACK notes, security findings, and pairing
  tests with sources.
- `src/conventions.rs` – style conventions per language.
- `src/locations.rs` – folders that play a known role.
- `src/models.rs` – models, schema files, migrations and the ORM.
- `src/git.rs` – reading the output of `git`.
- `src/formatter.rs`, `src/overview.rs`, `src/patterns.rs`,
  `src/integration.rs`, `src/features.rs`, `src/organization.rs`,
  `src/issues.rs` – the report's sections as exact text.
- `app/main.rs` – the command: walks the tree, parses and reads files, runs
  `git`, computes the floating-point shares, and prints the report.
- `tests/` – tests on concrete inputs.

Laws of the library are public proof functions named `lemma_…` next to the
functions they speak of.
