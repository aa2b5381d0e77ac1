# lexer

A scanner for a small statement language, verified with Verus.

- `src/ast/tokens.rs` — token kinds, literal values, tokens, and their mathematical values.
- `src/ast/text.rs` — character classes, decimal digits and numbers, building strings.
- `src/ast/lexing.rs` — the model: what one step of the scanner reads from a position
  (`scan_step`), what a whole run produces (`scan_run`), the keyword table and the error
  messages.
- `src/ast/scanner.rs` — the executable `Scanner`, proved to produce exactly what the
  model says.
- `src/ast/layout.rs` — for a scan without errors, the text between tokens is blank space and
  comments, and each token's line is the start line plus the line breaks before it.
- `src/ast/laws.rs` — properties of every scan: tokens are pieces of the source in order,
  no two semicolons in a row, line numbers never go back, one `Eof` closes the tokens,
  error text starts with `Line` and ends with a line break, the keyword table has no
  duplicates, and where a scan can fail to run to the end.
- `src/types.rs` — the language's types, read from and written as text.
- `app/` — printing tokens and reading float literals as numbers.

A float literal carries its decimal text (`FloatValue(String)`); `app/` turns it into an
`f64`.

The keyword table is a `Vec` of (word, kind) pairs rather than a `HashMap` keyed by `&str`:
vstd specifies hash maps usefully only for keys such as integers, so a map keyed by strings
would leave lookups unproved. The table is searched in order, and `law_keywords_distinct`
proves that no word occurs twice in it, so it denotes a map from words to kinds.
