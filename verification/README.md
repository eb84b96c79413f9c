# onfex

Onfex is a small scripting language (`valt`, `frounct`, `strouct`, `ifnt`,
`mehen`, `mot`, ...). This crate holds its toolchain as a verified Verus
library, and a command-line runner around it.

## Layout

- `src/text.rs`, `src/assoc.rs`, `src/names.rs`, `src/ostools.rs`: text
  helpers, association lists kept in source order, name checks, splitting
  command lines.
- `src/token.rs`, `src/lexer.rs`, `src/token_text.rs`: tokens, the lexer,
  specified token by token (`lex_at`; white space and comments between `#`
  marks are skipped), and how a token is shown in messages.
- `src/ast.rs`, `src/parser.rs`: the syntax tree and a recursive-descent
  parser over the stream of tokens (`tok_ahead`); it always consumes input
  or fails with a syntax error, and the trees of the simple statements,
  of `mot` statements, of `ifnt` with a one-token condition and of programs
  of print calls are stated.
- `src/bytecode.rs`, `src/compiler.rs`: the stack-machine program and its
  compiler; every jump stays inside its chunk, every expression and every
  straight-line statement leaves exactly one value on the stack, and the
  code of straight-line programs and the layout of `ifnt` are stated
  exactly (`block_code`, `if_code`); statements it can never compile are
  refused (`fails_at_once`).
- `src/values.rs`, `src/vm.rs`: values, operators and the stack machine,
  run one instruction at a time; printing, reading and floating-point work
  are events answered by the caller.
- `src/interpreter.rs`: the tree-walking engine, with nested scopes of
  names and addresses. Its outside work is asked of the caller as requests;
  a run is replayed with the answers given so far, and a program of prints
  asks for them one after another.
- `src/document.rs`: a source document and the ways to run it; on a
  program of prints the two engines print alike.
- `src/v2/`: only a few pieces of the second edition: its value kinds, its
  fixed-point decimals and their order, ternary digits, its errors and
  their coloured reports quoting the source line, the stack of sources
  being read, and its field-visibility check. Its lexer, parser, compiler
  and stack machine are not here.
- `app/`: the runner: reads a document, runs it on either engine, and does
  the printing, reading, file reading, shell commands and float arithmetic.
- `tests/`: tests of the library through its public API.

## Running

```
onfex [--bytecode] <folder> <file>
```
