# bibr

A BibTeX reference manager with a terminal interface and a command line.
The logic lives in a library whose functions carry `requires`/`ensures`
contracts proved with Verus; a thin program around it does the I/O.

## Layout

- `src/` — the verified library
  - `text.rs`, `sorting.rs` — character-sequence utilities and a stable
    merge sort, with their lemmas
  - `domain/` — entries and bibliographies, the block scanner, loading with
    diagnostics, formatting and sorting
  - `config/` — configuration defaults, merging, path resolution and
    validation
  - `search/` — query parsing, field qualifiers, smart case and ranking
  - `infra/` — editing entries in place (`bib_store`), editor and PDF
    launch arguments, the clipboard action and the change debouncer
  - `services/notes/` — note file names and templates with transforms
  - `cli.rs` — the command-line model and the text of each command's output
  - `ui/` — the interface state machine (`TuiApp`), text layout and the
    parts each widget draws
- `app/` — `main`, argument parsing (clap), reading and writing files,
  the terminal, processes, the clipboard and file watching
- `tests/` — tests of the library's public functions

Outside crates are reached through a few trusted wrappers, each with a doc
comment that says what its contract claims: `biblatex` (parsing),
`nucleo-matcher` (scoring), `chrono` (time formatting), `which` and
`directories` (the environment), and the case mappings of `str`.

## Collections

A bibliography keeps its entries in a `Vec` in the order they were added,
with the invariant that no citation key occurs twice, and an entry keeps its
fields in a `FieldMap`, a vector of name/value pairs whose names are unique.
A map keyed by strings would be walked in an order that depends on the
hasher, and Verus proves little about `HashMap` or `BTreeMap` with `String`
keys; with vectors every lookup, insertion and merge has an exact contract,
and everything that walks the entries (listing, merging, reporting the first
duplicate) is deterministic.

## Positions in text

Provenance ranges (`byte_start`, `byte_end`) are byte offsets into the
BibTeX file's UTF-8 text, so `&text[byte_start..byte_end]` is the entry's
block. Internally the scanner works on characters; `src/offsets.rs` turns
character positions into byte offsets and back.

## Parsing entries

Each entry block is handed to `biblatex` together with the `@string`
definitions before it. `biblatex` puts abbreviations in place and follows
`crossref` and `xdata` links recursively without looking for cycles, so the
loader first reads the text as written (`src/domain/cycles.rs`) and, when
an abbreviation could lead back to itself or a link could lead to an entry
of the same text, reports the block as a parse error instead of parsing it.
