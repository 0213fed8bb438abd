# neutron

A verified library for incrementally verifiable computation by folding: chains of steps are folded
into one instance, with lookups into tables on the side, and a chain is closed by an envelope that
is checked without the steps. The library is written in Verus: every function states what it
returns, and the statements are proved. Nothing is stated of two things only: the random numbers
that the operating system gives, and the lookups that the step of a user asks for
(`recursive::LookupStepCircuit`).

## 1. How it works

### 1.1 Engines

`engine::Engine` brings a prime field, a group over it and a random oracle. `m31` holds the field
of order 2^31 - 1; `reference` turns any field of the library into an engine. The proofs are
carried out for every engine.

The engine of `reference` is for trying things out and for tests. Its group is the field itself
under addition: an element is its own logarithm, for everyone to see, so that commitments neither
bind nor hide. It is not secure.

### 1.2 Constraint systems

`frontend` records constraints and, where they are known, values. A contract of a gadget speaks of
every valuation that the constraints admit, and of the values that were recorded.

### 1.3 Folds

`relation` holds folded instances, `structure` the constraints on a grid of weights.
`fold_prover` folds an instance into a running instance, `nifs` checks such a fold, and
`circuit::nifs` checks it inside of a constraint system.

### 1.4 Lookups

`lookup_sumcheck` is one round of the lookup argument. `columns` combines the columns of a table,
`bundle` carries the lookups of a step, table by table. `shape_registry` ties the digest of the
public parameters to a position.

### 1.5 Hashes

What a step hands on is hashed: the digest of the parameters, the number of steps, the first and
the present state, the folded instance with the running claims and commitments of its tables, and
a blinding. `state` computes the hash; the augmented circuit in `circuit` checks the one before it
and makes the next one public.

### 1.6 The single public value

The hash is the only public value of a step. An instance that is folded in therefore has exactly
one, and a running instance can be folded only if it has exactly one too. Laying an instance out,
taking it into a random oracle and choosing between two of them work for any number.

### 1.7 Envelopes

`compressed_snark` closes a chain. The weights of the folded instance are split into two halves
with commitments that add up to the commitment of the whole; a proof of equal openings ties the two
commitments of the second half together; a closing argument shows that the instance and its lookups
are satisfied.

The closing argument is a trait, `ClosingArgument`, that a user may implement. `OpeningArgument`,
the one that the library brings, hands over every vector of the instance and of its lookups, and
the verifier checks them one by one: such an envelope is as long as the vectors, and checking it
takes time in their length. A short envelope takes a closing argument that is short itself.

## 2. Layout

- `src/`: the verified library
- `tests/`: its tests
- `app/`: copies of the library's types that can be written and read, and the field with the
  traits of `ff`

Random numbers come from the operating system or from a ChaCha20 stream (`random`), work is spread
over threads by `rayon` (`par`). These calls are the only ones whose behaviour is taken on trust.
