# rgb_validation

Validation of client-side validated smart contracts, verified with Verus.

A consignment holds a schema, the genesis of a contract and the operations that build upon it,
bundled and anchored in transactions. Validation goes from each terminal of the consignment back
to the genesis, checks every operation on the way against the schema, its anchor and its witness
transaction, and reports all that is wrong.

- `src/schema`: kinds of operations and their schemata. The collections that these are made of
  are those of `amplify`.
- `src/contract.rs`: operations, and the access to a consignment.
- `src/index.rs`: the ordered index of operations that validation keeps.
- `src/validation/validator.rs`: validation itself, against the functions of
  `src/validation/model.rs`, which say what it reports.
- `src/validation/witness.rs`: transactions and anchors, with the calls into `bp`,
  `commit_verify` and `single_use_seals`.
- `src/validation/laws.rs`, `ancestry.rs`, `reporting.rs`, `counting.rs`, `comparison.rs`,
  `soundness.rs` and `completeness.rs`: what holds of validation as a whole, down to what a report
  without failures says of a consignment, and when there are none.
- `app`: schemata in strict encoding, and conversions from the types of `bp`.
