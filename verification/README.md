# rbfmt

A Ruby code formatter built on the prism parser, with its layout engine verified
by Verus.

## Layout

- `src/fmt/`: the layout engine. `shape.rs` models how a piece of code occupies
  lines; `output.rs` is the text being written, with drafts that can be rolled
  back and the queue of heredoc bodies waiting for the end of their line;
  `trivia.rs` holds comments and empty lines; `node/` holds one file per kind of
  syntax node, each with its layout rules. `fmt::format` lays out a whole tree.
  `flat.rs` describes the text of a node written on one line (`node_flat`);
  each node's `format` states that a node made of such parts that fits in the
  room left on the line is written exactly so, and the block constructs
  (`if`, `while`, `for`, `case`, `def`, `class`, `begin`, ...) state the text
  they produce when their parts can each be written that way.
- `src/config.rs`: the settings (`line_width`, 100 by default) and the search for
  `.rbfmt.yml` from a file's directory upwards, as steps that a caller performs.
- `src/parse.rs`: syntax errors reported by prism, and the state kept while
  converting a parse tree.
- `src/convert.rs`: the conversion of prism's tree, given as plain values
  (`PrismNode`: kinds, byte offsets, children) with the source's comments, into
  formatting nodes, and `format_source`. It converts programs and statements (with
  the comments and empty lines around them), literals and variable reads, calls on
  a receiver with their arguments, binary operators, arrays and assignments to
  variables and constants; any other node is kept as it is written. The result
  keeps every byte of the code but its layout, or the source is returned as it is.
- `src/meaning.rs`: a layout-free rendering of a parse tree, used to check that
  formatting kept the meaning of the code.
- `src/cli.rs`, `src/error.rs`: reading the command line (with getopts) and
  deciding what it asks for, and error reports.
- `app/main.rs`: the command line tool: files, standard input and output,
  reading the YAML configuration, and walking prism's generated node types into
  `PrismNode`.

Verify with `verus src/lib.rs`; the tests under `tests/` run the library on
concrete values.
