# ghafmt

Sorters that put GitHub Actions workflow documents into a canonical order, with
their behaviour stated as Verus contracts and proved.

A workflow is modelled as a tree of `Node`s (`src/node.rs`): scalars,
sequences, and mappings whose keys are scalars, each carrying the style it is
written in. Every sorter is a small plan of `Edit`s (`src/edit.rs`) — sort the
keys of a mapping, sort a sequence of scalars, descend under a key, into every
value or every item — and `apply` carries a plan out. Its contract is the spec
interpreter `apply_edit`, so each sorter's `process` is pinned to its plan.

- `src/text.rs`, `src/order.rs`: alphabetical order on keys and the key orders
  the sorters use (alphabetical, `with` inputs, a listed order), each proved a
  strict total order.
- `src/sort.rs`: a stable insertion sort of entries by key; the result is
  sorted, holds the same entries, and keeps entries that share a key in order.
- `src/structure_transformers/`: the `concurrency`, `defaults`, `env`, `needs`,
  `on`, `permissions`, `with` and `workflow_run` sorters.
- `src/presentation_transformers/variable_spacer.rs`: respacing of
  `${{ ... }}` expressions in scalar output, through the `regex` crate.
- `src/laws.rs`, `src/content.rs`: every sorter is idempotent, and no edit adds,
  removes or changes a scalar or the keys leading to it.
- `app/lib.rs`: conversion between `fyaml` documents and the node model, and
  the transformer traits a formatting pipeline drives.
