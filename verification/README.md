# parlan

The compiler of the Parlan programming language, a small language that is
translated to C, written in Verus with its behaviour stated in contracts and
proved.

## Layout

- `src/text.rs`: byte-range slicing of source text, decimal rendering of integers.
- `src/diagnostic.rs`: the diagnostics the lexer and the parser report.
- `src/lexer.rs`: the tokenizer of NUL-terminated source text.
- `src/ast.rs`: the syntax tree the parser builds, and the tree of nodes the
  later passes work on.
- `src/parser.rs`: the recursive-descent parser with error recovery.
- `src/semchecker.rs`: the semantic analysis (declared names, calls).
- `src/tychecker.rs`: the type checker.
- `src/backend.rs`: the C code generator.
- `app/`: the command-line driver: argument handling, reading the input file,
  and rendering diagnostics on the terminal.

Each pass is specified by spec functions over mathematical values (`Seq`,
`Map`, views of the data types); the executable code is proved to compute
them. The `law_*` proof functions state properties that span calls, such as
that every syntax error in the tree comes with a diagnostic, that comparisons
type as `bool`, or that the C code of a program is the code of its statements
in order.
