# coplt_inherit

A verified library, written in Verus, with two parts:

- `src/lambda.rs`: a small calculus of combinators (Church numerals,
  Church booleans, `S`, `K`, `I`, a strict fixed-point combinator and a
  counter that turns numerals into numbers). Application is strict and
  bounded by a fuel; its specification is `lambda::eval`.
  `src/lambda/laws.rs` proves what the calculus computes: that more fuel
  never changes a result, that `Inc`, `Add`, `Mul`, `Dec`, `Sub` do the
  arithmetic they are named after, that `Count` gives the number of a
  numeral, that `IsZero`, `IsEq`, `If`, `Not`, `And`, `Or` behave as
  booleans, and the fixed-point equation of `Fix`. `src/lambda/bounds.rs`
  states fuel that is enough: for numerals, explicit bounds above which
  `Count`, `Sub`, `IsZero` and `IsEq` are sure to give their results.
- `src/lib.rs`: partial construction of a value one field at a time. The
  fields still to write form a chain; writing a field takes it off the
  chain, found by comparing numeral identifiers with `IsEq`, so that no
  field is written twice.
- `src/meta.rs`: selection of a type by a Church boolean.

The tests under `tests/` run the executable functions on concrete values.
