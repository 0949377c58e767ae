# wirefilter_scheme

The scheme part of a filter engine, written in Verus: the registry of the
fields, functions and lists that filters may name, the lexing of names,
indexes and regular expressions, the lookup function between arrays, and the
errors that parsing reports.

Layout:

- `src/types.rs`: field types, values and arrays of values.
- `src/lex.rs`: lexing on the characters of an input (names, integers,
  quoted byte strings, raw strings), each function proved against a spec
  function that states its outcome.
- `src/scheme.rs`: the scheme store, the scheme builder and the scheme, with
  the laws of registration and lookup (`law_*`).
- `src/functions/`: the function definition trait and the lookup function.
- `src/rhs_types/regex/`: regular expressions; compilation goes through
  `regex-automata` behind small trusted wrappers in `imp_real.rs`.
- `src/ast/parse.rs`: parse errors (with the text they are shown as),
  parser settings and the parser handle.
- `app/lib.rs`: serialisation with serde, the error types that carry
  derived messages, and the panicking builder from a list of fields.

Positions and spans count characters of the input.

Builders created from one store share it: the store sits behind a verified
`vstd` read-write lock whose predicate says that its contents only grow, so
what a builder saw in the store stays there at the same index, and the scheme
it builds holds that very store. Additions that other builders make in the
meantime are not known to the verifier; contracts speak of them only as what
holds of every outcome: an index that a builder gets back is one at which
contents that the store admits hold the name (`holds_field`,
`holds_function`, `holds_list`). A name is looked up under the read lock and
defined under the write lock, so a name that another builder defined in
between is reported as a redefinition.
