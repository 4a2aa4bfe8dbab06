# camello

The verified core of a static checker for Perl: the type lattice and its
annotation grammar, the recognisers that read Moose, `Class::Accessor`,
`Smart::Args` and `Type::Library` declarations, the declaration pass's
reading of `use`, `@ISA`, `@EXPORT` and `require`, the program-wide class
hierarchy (depth-first linearisation, method resolution, `isa`), arity checking of
every call in a file,
narrowing, the subtype and compatibility relations, the decisions of the
typing walk (what arithmetic, subscripts and binary operators give back, what
a value, a `return`, a call's arguments and a constructor's pairs report
against what was declared, how the values leaving a sub join into its
return), the rounds of whole-program return inference, diagnostics and their
severities, where `strict` is in force and the lexical scope table that
reports undeclared, unused and shadowed names, per-line suppression, and
hover signatures.

Every function in `src/` is proved by Verus against its `requires` and
`ensures`, except two trusted wrappers over `std` whose contracts Verus takes
on trust: `text::push_char` (`String::push`) and `resolve::char_is_alphanumeric`
(`char::is_alphanumeric`, whose answer is named rather than written out). The
contracts are stated over spec functions and views of the library's own types.

Layout:

- `src/syntax.rs`, `src/ast.rs`: the concrete syntax tree the library reads,
  and typed views over its nodes.
- `src/types.rs`, `src/shape.rs`, `src/relation_laws.rs`, `src/flow.rs`,
  `src/narrow.rs`: types, list shapes, their relations and their laws.
- `src/annotate.rs`, `src/attributes.rs`, `src/written.rs`, `src/params.rs`:
  what annotations and declarations say.
- `src/declare.rs`, `src/decl.rs`, `src/program.rs`: what a file declares and
  what the whole program answers about it.
- `src/scope.rs`: `strict` regions and the scope table.
- `src/link_laws.rs`: what linking named types twice does.
- `src/walk.rs`: the typing walk's decisions, each on the types the walk
  found; `src/rounds.rs`: which files a round of return inference walks, and
  how what it found is installed.
- `src/hash.rs`: the hasher for maps keyed on a file offset.
- `src/arity.rs`, `src/diag.rs`, `src/suppress.rs`, `src/signature.rs`:
  what is reported, how loudly, where it is silenced, and how a sub is shown.
- `tests/`: the scenarios, on hand-built trees.
