# kmp_index

The index behind a language server for Kotlin Multiplatform projects, written and verified in
Verus: executable Rust whose behaviour is stated in contracts and proved.

The index knows what the Kotlin, Java and Swift files of a workspace declare, what the libraries
of the project declare, and what Android layouts and the binding classes generated from them
hold. From it, and from the syntax trees of open documents, it answers what stands at a cursor,
what encloses it, what `it`, `this` and the parameters of a lambda are, where a name is declared,
and what its declaration reads like where it is used.

## Layout

- `src/` is the verified library. Every function has a contract over mathematical views of the
  data. `laws.rs`, `reload.rs` and the functions named `law_...` in other modules state what
  holds across functions: that indexing a file or the sources of libraries again counts nothing
  double, that what a file declared is forgotten with it, that a library cache is never taken for
  whole before it is, that a class hierarchy which misses no file is whole, and so on.
- `tests/` runs the library, with the crates that it calls.
- `app/` is ordinary Rust around the library: it reads and writes files, runs the search tool,
  walks directories, unpacks archives and drives the background work that the library decides on.

## What is trusted

The proofs rest on contracts of functions outside the library. They are few and stand in
`unicode.rs` (classes of characters), `table.rs` (`DashMap`), `urls.rs` (`Url`),
`cache_paths.rs` (SHA-256), `ignore_rules.rs` (globs) and `syntax.rs` (tree-sitter). Each says
above it what is claimed of the function that it calls.

## Limits

- A Kotlin text with more than 1024 quotes, or a text of 4 GiB, has no syntax tree. The scanner of
  the Kotlin grammar has room for so many open strings, and one that is given up while the parser
  recovers from an error stays open; the parser counts bytes in 32 bits.
- Of the tree of a Swift text, and of a Kotlin text beyond ASCII, it is proved only that it fits the
  text.
- Of the URL of a path, and of the path of a URL, it is proved what all systems agree on: how
  absolute paths of plain names are written, if they have a URL, and that relative paths have none.
- A pattern that nests more than 250 braces matches no file.
- What a pattern with a backslash matches depends on the system. Proved is what holds either way:
  the rest of the patterns, the extensions and the excluded directories count.
