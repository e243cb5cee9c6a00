# goldilocks

A Ruby beautifier: Ruby source, parsed by Prism, becomes a pretty-printing
document (Wadler-Lindig style), which is printed within a configurable
column width (100 by default), with 2-space indentation and the source's
comments woven back in.

The library is written in Verus and its behaviour is proved against
mathematical specifications.

## Layout

- `src/ir.rs` — the document algebra (`Doc`) and its view (`DocView`);
  constructors, `join`, `join_comma_separated`.
- `src/printer.rs` — the printer: `print_cmd`/`render` state what printing
  means; the stack machine `render_variant` is proved to compute it.
- `src/width.rs` — column widths: one column per character.
- `src/measure.rs` — whether a document fits the printer's integer counters.
- `src/ast.rs` — the syntax tree the formatter reads.
- `src/text.rs` — source text helpers; UTF-8 decoding.
- `src/comments.rs` — comments and the record of which have been placed.
- `src/layout.rs` — what the formatter builds for each kind of node, as
  specification functions.
- `src/docs.rs` — small builders of document lists.
- `src/formatter.rs` — the formatter, proved to build exactly what
  `layout` describes.
- `src/wellformed.rs` — checks that a tree and its comments are what the
  formatter expects.
- `src/laws.rs` — properties that hold for every input: the column limit
  is exact, fitting is monotone in the column and the width, the two fits
  checks agree, statements keep their order.
- `src/frame.rs` — printing after a prefix is the prefix followed by the
  rendering from the column where it ends.
- `src/lib.rs` — configuration, errors, `format_parsed` and
  `format_source`, which reads the parser's errors and comments itself.
- `app/` — the command-line program: reads files, parses them with Prism,
  converts Prism's tree into the library's, and prints the result.
- `tests/` — tests of the library.
