# A verified compiler for a small subset of C

The library compiles a small subset of C (functions, `int`/`char`/`bool` variables,
pointers, arrays, structures, `if`/`else`, `while`, `for`, `break`, `continue`, calls and
string literals) to x86-64 assembly in Intel syntax. It is written in Verus: every
function of `src/` carries a contract that Verus proves.

## Layout

- `src/lexer.rs`: source text to tokens. `lex` is the spec of the whole lexer, a
  character-by-character state machine; `tokenize` is proved to compute it, for sources
  whose comments are closed (`comments_closed`).
- `src/token.rs`, `src/numeric.rs`: token kinds, and the number grammar used to tag
  numeric tokens and to read integer literals.
- `src/parser.rs`, `src/ast.rs`: tokens to a program tree. Each `parse_*` function is tied
  to an `sp_*` spec function that says what it reads, what it builds and which error
  stops it.
- `src/codegen.rs`: the program tree to assembly text, again with one `sp_*` spec per
  `gen_*` function, stated over the mathematical form of the generator's state.
- `src/driver.rs`: the three stages chained.
- `src/properties.rs`, `src/numbering.rs`: proved properties that span functions, such as
  scoping of block variables, a stack offset that never rises, the stack of pending
  breaks, 16-byte stack frames, the order of functions in the output, the quote parity
  kept by the lexer, and the label and string numbers that the parser hands out.
- `tests/`: tests on concrete programs.
- `app/main.rs`: the command-line program, `main INPUT OUTPUT`, which reads a file, runs
  the library and writes the assembly.

## Design notes

- The variables in scope are a list of (name, entry) definitions with the start of each
  open scope (`codegen::VarTable`), not a list of hash maps keyed by `String`. A name
  stands for its latest definition in the open scopes, which is what looking the scopes
  up from the innermost one gives, redefinitions included. vstd specifies `HashMap` by
  the view of its keys, and for `String` keys it does not let a proof conclude what a
  lookup finds; with the list, what `get_scope_variable` returns, and what closing a scope
  forgets, are proved exactly.
- The cursor and the generator's state (`parser::Cursor`, `codegen::CodeGen`) hold what
  a compiler of this kind often keeps in global variables: the token position, the
  counters for labels and string literals, and the stacks of pending breaks and loops.
