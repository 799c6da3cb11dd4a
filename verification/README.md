# ruda

The front end and the project tooling of the Ruda language, written in Verus:
each public function states its behaviour in `requires` / `ensures`, and
Verus proves the code against it.

## Layout

- `src/` — the verified library
  - `lexer`, `preprocessor`: source bytes to tokens with their places, and the
    joining of literals, comments and operators with the errors found;
    a token printed and read back is the same token.
  - `grammar`, `formater`: the grammar files (`.ast`) read into heads and nodes.
  - `tree_walker`, `walker`, `budget`: the walk of tokens along a grammar, which
    builds the parse tree, and the law that its step budget decides only
    walks that use it up.
  - `tree_reader`, `expression`: reading the parse tree; expression lists
    turned into trees by operator precedence.
  - `ast`, `types`, `context`, `names`, `libloader`, `codegen`: the model of a
    program and its types, the dictionaries of files and binary libraries,
    imports, and the lookup of the objects that code names.
  - `config`, `sum`, `remote`, `lens`, `canvas`: project configuration and
    versions, check sums of source files, remote packages, the history of the
    object browser, and the whole-pixel part of the drawing canvas.
- `tests/` — tests of the library on concrete values.
- `app/` — the command-line tool around the library: argument parsing, files,
  network, serialisation and floating-point drawing.
