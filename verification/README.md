# rlox

A Lox toolchain in Verus, in two parts that share nothing but the language.

The bytecode side (`scanner`, `bytecode`, `compiler`, `vm`, `table`, `value`,
`debug`, `obj_heap`): a character-level scanner driven by a state machine, a
chunk format with a run-length line table, a Pratt-parser compiler for
expressions and for programs of `print` and expression statements, a virtual machine that runs one instruction per step and hands
floating-point arithmetic and printing to its host, an interning string heap
over an open-addressing hash table, and a disassembler.

The tree-walking side (`walker`): scanner, recursive-descent parser, resolver,
printer, callable values, scopes, and what the unary and binary operators do
to their operands, each specified against a grammar, a state machine or a
table written as spec functions.

`app/` is the command-line driver: it reads files and the terminal, does the
binary64 arithmetic, and holds the tree-walking evaluator's walk over the
syntax tree. That walk is not verified: unlike the bytecode machine, it is
not held in the library as a machine that takes one step per call; its
operators and its scopes are the library's.
