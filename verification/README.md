# scheme

A small Scheme front end whose library is verified with Verus.

- `src/lexer`: a character cursor, the lexer and a token stream with one
  token of look-ahead. The token grammar is a set of spec functions
  (`scan_token`), and `Lexer::next_token` is proved to produce exactly it.
- `src/parser`: the grammar of expressions over the token stream (`grammar`),
  decimal integers (`number`) and the recursive descent parser, which builds
  pairs in the garbage-collected heap and is proved to build the tree the
  grammar reads, keeping what it builds alive across collections.
- `src/display.rs`: the external representation of values.
- `src/gc`: packed object headers, borrow cells, tracing, and a
  mark-and-sweep heap whose collection is proved to free exactly the objects
  that cannot be reached from a root.
- `src/object.rs`, `src/store.rs`, `src/symbol.rs`, `src/value.rs`,
  `src/expr.rs`: values, heap objects, the store, interned symbols, tagged
  one-word values and procedure signatures.
- `src/reader.rs`: reading source text into syntax trees, with nested
  lists as vectors or a program as a list of pairs; its grammar is a set of
  spec functions and the readers are proved to follow it. Number literals are
  kept as text.
- `src/environment.rs`: variables by name with their values, procedure
  prototypes, and the core library's native procedures bound by number.
- `src/vm.rs`: the bytecode machine's instruction step, the call and return
  of frames, all proved against a spec of one step; `src/natives.rs`: the
  native procedures on booleans, pairs and lists, and `assert`.
- `app/main.rs`: the read-eval-print loop, which shows the tokens of each
  line and the expression parsed from it; the loop that drives the machine
  and runs native procedures.
- `tests/`: tests of the library.
