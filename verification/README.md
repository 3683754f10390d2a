# sorrel

Lexer and parser for the Sorrel language, verified with Verus.

- `src/lexer.rs`: the token grammar as regular languages and maximal munch
  over them (`step_at`, `tokens_from`, `lex`); `Lexer::next` is proved to
  return exactly the next token they define. `lexer/scan.rs` holds the
  scanner, `lexer/rules.rs` facts about the token languages,
  `lexer/text.rs` UTF-8 offsets and slices, `lexer/properties.rs` what
  holds of all the tokens of a source.
- `src/parser/grammar.rs`: the parser as mathematical functions from the
  token sequence and a parse state to the new state and a result or error
  message. Every parsing method in `parser.rs` and `parser/expression.rs`
  is proved to compute its function. `parser/precedence.rs` states the
  precedence table as a tree over chains of operands and operators and
  proves the parser follows it, for operands of any unary-level form;
  `parser/progress.rs` proves that every rule reads forwards; `parser/properties.rs` states how operators group, how region names are numbered, and how blocks take
  their tail. `parser/messages.rs` gives the error messages as text.
- `src/ast.rs`: the syntax tree, and beside each node a mathematical value
  of the same shape that the contracts speak of.
- `app/`: the lexer as a standard iterator, float literals as `f64`, and
  entry points that check the source size limit before parsing.

Region names are interned with the `lasso` crate; the contract Verus
assumes of it is stated beside the two calls in `src/parser.rs`.
