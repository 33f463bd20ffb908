# miden_foundation

Three pieces that a compiler and a prover stand on, written in Verus and proved against their
contracts:

- `hir`: the types of an intermediate representation. Their layout in memory, recursive types and
  how they are built from named definitions, how types are written as bytes and read back, and how
  they are shown as text.
- `precompiles`: the constraint systems of a family of chiplets. Keccak hashing, arithmetic on
  256-bit integers, points on elliptic curves, the lookups that tie the chiplets together, and the
  soundness of the whole.
- `registry`: package records and how a version is found among them.

`src/` is the verified library and `tests/` runs it. `app/` is ordinary Rust that puts the library's
types behind the traits of other crates: printing, serialisation, error types and the prover's
constraint builders.

## What is proved

The functions state what they return for every input that they take, over a mathematical model of
their data. A type is a `Shape`, its layout is computed from that shape, the bytes of a type are
`enc(shape)`, and reading is a parser over a sequence of bytes.

The laws that relate several functions stand beside them as public proof functions. A type that was
written reads back as itself, whatever follows it. Whatever is read is canonical, and reads back as
itself when it is written again. What a set of definitions builds depends neither on the keys of the
definitions nor on their order, and a type that is built unfolds to its definition. A round of
Keccak is a permutation of its states. The modulus of the field is prime, and from that follows what
the digest node, addition and multi-scalar tables hold whenever their constraints are met: flags are
zero or one, rows in use come first and have one kind each, padding provides nothing, and counters
count.

## What is trusted

Calls into other crates stand behind small wrappers whose contracts are believed: arithmetic of the
field and its quadratic extension (`miden-crypto`) and of wide integers (`ruint`), variable-length
numbers (`miden-serde-utils`), the soundness budget (`p3-security`), versions (`semver`) and the
pretty printer (`miden-formatting`).
Each says in its doc comment which function it calls and what is claimed of it.
