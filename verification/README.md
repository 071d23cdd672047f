# ix

A verified Rust library, and the thin layer of ordinary Rust around it.

The library is checked by Verus: every function that is proved states what it returns, and the
promises that span several functions are proved as laws.

## What is in it

- `canon`: a canonical binary encoding of values. Equal values encode to equal
  bytes, different values to different bytes, and no encoding begins another.
- `lang`: a lazy, purely functional expression language. `syntax` flattens what
  the parser found, `compile`, `scopes` and `entries` turn it into the bytecode
  of `ir`, and `vm` runs that on a heap of slots, with a stack of frames and
  without recursion. The machine reads no file and adds no floating-point
  numbers: it suspends with a question, and `eval` hands it the answer of a
  `Host`. What holds of every program is in `laws`, `set_laws` and
  `memory_laws`; of sorting, of closures, of versions and paths and of the
  table of builtins, in `sort_laws`, `closure_laws`, `text_laws` and
  `table_laws`.
- `history`: deterministic path filters over git history. `derive` and `walk`
  compute the view of a history below a path, `lift` puts a commit of the view
  back, and `cache` remembers what was derived and checks anchors. `laws`,
  `lift_laws`, `tip_laws` and `cache_laws` prove, among other things, that a
  history that was injected under a path comes back with the ids it had.
- `commands`: the decisions of the commands that publish views: what is refused
  before anything is sent, in which order views are sent and what is said about
  them. `pushing` and `anchor` are state machines that a caller drives.
- `prompt`: the line that a shell prompt shows for a working copy. `laws` proves
  that color changes no visible text of it.
- `launch`: which key a session is started with, and when a session that was
  cloned into another machine has to end.
- `typescript`: which files a generated TypeScript binding consists of.

## What is trusted

Calls into other crates stand behind small functions whose contracts are not
proved: the parser of the expression language (`lang/syntax.rs`), hashes and
regular expressions (`lang/outside.rs`), JSON and TOML documents
(`lang/docs.rs`), git objects (`history/commits.rs`, `history/store.rs`), the
debug form of a string (`history/error.rs`) and terminal styles
(`prompt/render.rs`). So does appending a character to a string (`text.rs`),
which is the standard library's. Each has a comment that says what is
claimed. A `Host` promises nothing: what is proved of an evaluation is said over
what the host's methods may return.

## Layout

- `src/` is the library.
- `tests/` runs it.
- `app/` is what surrounds it: the file system and the environment behind a
  `Host`, the C interface, git repositories on disk, processes and addresses,
  command-line options and JSON output.
