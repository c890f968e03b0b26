# Comix

An interpreter for Comix, a small statically typed scripting language
(`int`, `bool`, `string` and arrays; `if`/`else`, `while`, inclusive `for`;
functions with recursion; `print`; `//` comments), written in Verus.

Layout of `src/`:

- `text.rs` — decimal rendering, string helpers, line and column of a byte offset.
- `lexer.rs` — the lexical grammar (`lex`) and the tokenizer proved against it.
- `parser.rs` — the syntactic grammar (`p_program` and friends) and the
  recursive-descent parser proved against it.
- `reader.rs` — source text to statements, or the error message with its position.
- `positions.rs` — law: every variable records the offset where its name is written.
- `value.rs`, `environment.rs`, `ast.rs` — values, nested scopes, syntax trees and their models.
- `semantics.rs` — the big-step semantics of statements and expressions.
- `evaluator.rs` — the interpreter, proved equal to the semantics.
- `scoping.rs`, `budget.rs`, `rules.rs` — laws: how scopes grow and shrink; what the step budget can change;
  what `and`/`or`, declarations, assignments, blocks, `return`, calls and statement lists do.
- `repl.rs` — the interactive session and script runs as a state machine.
- `gui.rs` — the editor window's state and its Run button.

`app/main.rs` is the command: `comix` starts a session, `comix FILE` runs a script.

In a session each input (a line, or lines joined by a trailing `\`) is read
and run as a text of its own, so the line and column in an error message
count within that input: after `int x;`, the input `x := y + 1;` reports
`运行时错误: 1:6 变量 'y' 未定义`. What a program prints is written when the
input has finished running.
