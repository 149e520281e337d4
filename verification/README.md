# rlp_circuits

A verified library for two circuits of a rollup:

- the decoder of a transaction list in the recursive length prefix format (RLP): it lays a list of
  dynamic fee transactions out in the rows of a table, whose constraints hold for every list that is
  accepted, and for those that are refused but for the few below;
- the public input circuit, which commits to the fields of a block by the Keccak digest of their
  encoding.

`src/` is proved with Verus; `app/` makes the circuits into circuits of `halo2_proofs` and runs its
mock prover on them.

| module | content |
| --- | --- |
| `field`, `rlc`, `keccak` | scalars of BN254, random linear combinations of bytes, the digest |
| `tags`, `rlp_decoder_tables` | fields, decoding types and errors; the rules of the fields and the fixed table |
| `row`, `decode`, `state`, `accumulate` | the witness: rows of a field, decoding of a field, the steps from field to field, combinations and padding |
| `expression`, `config`, `assign` | constraints, lookups and comparisons of the decoder, and the cells of its rows |
| `rlp_stream`, `transaction`, `witness` | encodings, signed transactions, blocks |
| `circuit`, `taiko_pi_circuit` | the two circuits |
| `trace`, `laws` | what holds of every witness |
| `completeness`, `acceptance`, `round_trip` | which witnesses satisfy the constraints; what is encoded is accepted and given back |
| `soundness` | what the constraints force, whatever the cells hold |

The constraints of the decoder hold for the witness of a list of less than 2^32 bytes, unless the
first error in it is one of these, which a row shows in a way that they do not admit:

- the length in the header of a transaction takes two or three bytes and starts with a zero;
- the bytes run out in the header of a transaction, in a field that takes more than one row, or in
  front of a field other than the data with none left.

A contract speaks of a field element by its integer value, of a witness by its rows (`Row`), and of
a constraint by its value in an environment of cells (`Env`). What outside crates compute is stated
at the functions that call them: scalars of `halo2curves`, the encoder and decoder of `rlp`, the
digest and the transactions of `ethers-core`, and the encoding of `alloy-dyn-abi`.
