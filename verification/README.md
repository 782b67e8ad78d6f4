# front

The front end of a small teaching proof language (`.sokonanoda` files):
lexing and parsing with user notations, module names and the import
closure of a project, project diagnostics, semantic highlighting, a tactic
draft that builds lambda terms, and the editor-facing query answers
(positions, the state under the cursor, the project view).

Layout:

- `src/` — the library, verified with Verus. Each public function states
  its result in `ensures`; the laws of the library are public proof
  functions (`lemma_*`) next to the functions they are about.
- `tests/` — concrete scenarios for the library.
- `app/` — the parts that touch the file system or serialize: manifest
  discovery and loading, module lookup on disk, reading files for the
  closure loader, project planning from disk, and serializable copies of
  the answer types.

Scope: the library covers the front end only. Type checking (the kernel
and its tactics), incremental compilation with its cache and compile
plans, editing sessions and the document queries built on compilation
results are not part of it; the project view and reports take their
counts as inputs.

What is stated and what is not: the lexer (which texts lex, and the
tokens with their byte offsets), the lookahead and token-level parsing
helpers, name collection, classification, rendering, the closure loader
(dependencies are loaded before the modules that import them; a module
with a missing, invalid or cyclic import or a text that does not parse is
marked failed) and the project checks carry exact contracts. Path
operations are stated over named results of the platform's path rules.
The parser's grammar has no specification here, so whether a whole file
or expression parses is not stated; the functions that depend on a parse
say what they do with the result (for example `semantic_tokens_of`,
`ProofState::start_with_goal`, `ProofState::exact_term`).
