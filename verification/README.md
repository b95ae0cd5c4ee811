# lort

A Python import sorter with **length-first segment ordering**: within each
contiguous block of top-level imports, module paths are compared segment by
segment, a shorter segment (in UTF-8 bytes) before a longer one and equal
lengths alphabetically, with a package before its submodules. `import`
statements come before `from` imports, relative `from` imports (fewer
leading dots first) before absolute ones, and type-annotation modules
(`typing`, `typing_extensions`, `collections.abc`) at the bottom of the
block. Names inside a `from` import are sorted the same way, by name.

The library is written in Verus. Its functions carry contracts that Verus
proves, except a few small trusted wrappers, whose contracts are taken on
trust: `String::push` (`src/text.rs`), the hunks that `similar` computes
and the four `owo_colors` paints (`src/diff.rs`). Each says in its doc
comment what it claims of the outside code.

## Layout

- `src/text.rs` — character-sequence operations (`trim`, `lines`, `find`,
  `split`, UTF-8 length, decimal notation) specified and implemented.
- `src/parser.rs` — the import-statement types, what parsing a source text
  yields (`parse_source`), `parse_file`, and `reconstruct_import`.
- `src/keys.rs` — the orders on module paths, names and statements, and the
  laws that make them total orders.
- `src/stable.rs` — stable sorting by a total preorder, and its laws.
- `src/sorter.rs` — `compare_module_path`, block sorting, `__future__`
  validation, `sort_and_reconstruct`, and the laws of sorting.
- `src/stdlib.rs` — recognition of type-annotation modules.
- `src/error.rs` — `LortError` and its messages.
- `src/diff.rs` — the unified diff shown by `--diff` (hunks from `similar`,
  colors from `owo_colors`).
- `src/reparse.rs` — reading back what reconstruction writes: a statement
  in the form that parsing gives, written out and parsed again, is the same
  statement.
- `src/rereading.rs` — sorting the tool's own output again gives the same
  text (line numbers do not matter to sorting; the output parses back into
  the sorted segments).
- `src/paths.rs` — the order of collected files: paths compared component
  by component, as `Path` compares them.
- `src/cli.rs` — the command-line tool's decisions: which files count as
  Python sources, exclusion patterns, hidden directories, what to do with
  each file, exit codes.
- `app/main.rs` — the binary: argument parsing, file and directory I/O,
  logging.
- `tests/` — unit and end-to-end tests.
