# parsevm

Parser combinators over character input and a small register machine, each with a
mathematical contract that the code is proved to meet.

- `src/parser/`: the `Parser` trait (`spec_parse` is what a parser means; `parse` returns exactly that),
  the primitive parsers (`pchar`, `pstring`, `any_of`), the combinators (sequence, choice, map,
  optional, many, many1, forward), the value mappers used by `map`, and the laws in `laws.rs`.
- `src/virtual_machine/`: the instructions and values of the machine, `Program::eval`, and the code
  emitter `emit` / `emit_body` with its laws.
- `src/language.rs`: the source expressions that the emitter compiles.

A `ForwardParser` holds its implementation by value: `set_implementation` changes only the handle
it is given, so a grammar cannot refer to itself through a forward parser. Recursive grammars are
written instead as a `Grammar` whose rules refer to each other by index (`Node::Rule`); `declare`
adds a rule without a definition (references to it fail, as an empty forward parser does) and
`define` gives it one, which every reference to it then uses.
