# hook

A transpiler from fish shell scripts to Bash (5.0 and later), written in
Verus: every function of the library carries a contract that Verus proves.

## Layout

- `src/grammar.rs`: the parser, from script text to the syntax tree in
  `src/ast.rs`. Its specification is in three parts:
  - `src/grammar/syntax.rs`: the grammar as a recognizer (where each rule's
    match ends), which decides whether a script parses;
  - `src/grammar/tree.rs`: the words, commands and redirections each rule
    builds at a position;
  - `src/grammar/statements.rs`: the statements, pipelines and blocks.
- `src/unescape.rs`: the escape sequences of unquoted, single-quoted and
  double-quoted text.
- `src/bash/lowering.rs` and `src/bash/lowering/`: the lowering of the
  syntax tree to a Bash-shaped intermediate form (`src/bash/ir.rs`),
  including the `set`, `count` and `contains` builtins.
- `src/bash/emitter.rs`: the Bash text of a lowered program.
- `src/target.rs`: the Bash targets and their names.
- `app/main.rs`: the command-line tool (reading files or standard input,
  printing the result or the syntax error).

## Notes

- The emitted script must be syntactically valid Bash, so quoted text is
  escaped where it is emitted: in a single-quoted part a `'` is written as
  `'\''`, and in literal text inside double quotes `"`, `$`, `` ` `` and `\`
  get a backslash. Written as they are, text such as `it's` or a `"` inside
  double quotes would end the quotes early. Unquoted literal text is written
  as it is.
- Words are split and trailing space trimmed on Unicode whitespace.
