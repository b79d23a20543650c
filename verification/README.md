# deskc

Parts of the Desk compiler, as a library whose functions carry contracts
proved by Verus: the lexer and parser, the generation of the high-level
representation, the typing contexts with subtyping and instantiation (the
ground that type synthesis stands on; synthesis itself is not here), the
simplification of effect expressions, and pieces of the later stages.

## Layout

- `src/` is the verified library.
  - Reading source text: `lexer` (text to tokens with character spans),
    `syntax` and `parser` (tokens to the syntax tree of an expression, a
    type or an effect).
  - The high-level representation: `ast`, `hir` and `hirgen` (syntax tree
    to the representation, with attributes, brands and type aliases).
  - Typing: `ty` (types and their models), `order` and `sorted`
    (the total order on types and sorting without duplicates), `substitute`,
    `effect_expr` (simplification of effect expressions) and `effect_laws` (its laws), `ctx` (typing
    contexts), `substitute_from_ctx`, `well_formed`, `subtype_spec`,
    `subtype`, `instantiate`, `subtype_laws`, `utils`, `polymorphic_function`.
  - Later stages: `types`, `into_type`, `conc_types`, `concretizer`, `thir`,
    `dson`, `thir2dson`, `amir`, `amir_proto`, `into_op`, `value`.
- Not covered: the minimalist text syntax (its parser is generated from a
  grammar that is not part of this project's files), type synthesis and
  checking of expressions, and the generation and evaluation of the
  intermediate representations beyond the builder in `amir_proto`.
- `tests/` holds the tests, run against the compiled library.
- `app/` holds what Verus does not see: the error types with their messages,
  conversions of identifiers to and from `uuid::Uuid`, and the evaluation of
  operators on floating-point numbers.

Each function states in its contract what it returns, over mathematical
models (`Seq`, `Map`, `int`) of the data it works on; the laws that relate
several functions are public proof functions named `law_*`.
