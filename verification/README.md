# arc

A small programming language — scanner, single-pass bytecode compiler and
stack-based virtual machine — written in Verus. The scanner and the machine
are specified exactly. The compiler's contracts state how each construct's
code is laid out, that compiled code is well formed, that lexical errors fail
compilation and that an empty program compiles. For expressions at the top
level (literals, global reads, unary and binary operators with their
precedence and left associativity, grouping and calls) the code and
constants are given as a function of the tokens read, by `grammar`; the
contracts do not yet give the code of a whole program as a function of its
source.

- `src/` — the verified library. `scanner` (with a functional model of
  tokenisation), `grammar` (what top-level expressions compile to), `parser`
  (the compiler), `chunk`, `instruction`, `value`,
  `globals`, `vm` (the machine as a state machine over a mathematical model,
  with its laws), `disassembler`, `output`, `playground`.
- `app/` — the `arc` command (REPL and file runner) and the web playground
  entry point. It answers the machine's requests for floating-point work and
  the clock, and writes output to the terminal.
- `tests/` — tests of the library.

Numbers are IEEE-754 doubles. The library carries them as bit patterns and
asks its caller, through `vm::Action`, to parse, compute, compare and format
them.
