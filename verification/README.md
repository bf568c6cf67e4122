# rust_interpreter

A tree-walking interpreter for the Lox language, written in Verus: the
scanner, parser, resolver, syntax-tree printer and interpreter are verified
against specifications stated in the code.

## Layout

- `src/lexer` — tokens and the scanner (`scan`), specified by a scanning
  function over the input's characters.
- `src/parser` — the grammar as spec functions (`grammar.rs`), the
  recursive-descent parser proved to agree with it, the resolution rules
  (`resolution.rs`) and the resolver proved to follow them.
- `src/ast` — expressions, statements and the printer (`AstPrinter`), whose
  output is specified piece by piece; `colors.rs` proves that removing the
  color codes from the colored output gives the plain output, when no text
  in the tree holds an escape character.
- `src/runtime` — values, environments (scopes in a table, with read-after-
  write laws), functions, classes, instances, the operators' semantics and
  the interpreter. What each kind of expression and statement does is
  specified (`expression_step` and `statement_step`, recursive over the
  evaluation budget), calls included, so running a program, a block or a
  function body is specified as its statements run in order. A class
  declaration's static field initializers are specified to run in order;
  the values the fields then hold are not specified.
- `src/number.rs` — IEEE-754 doubles held as bit patterns, with arithmetic by
  `rustc_apfloat` and negation and comparison on the bit patterns; `src/text.rs` — character classes and case conversion.
- `app/` — the command-line driver: `tokenize`, `parse`, `evaluate`, `run`
  and `dbg` on a source file.
