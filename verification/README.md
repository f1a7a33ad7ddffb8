# role_repair

Repairs role rows of a catalog whose stored form has drifted, and takes the catalog from version 82
to version 83.

A role row in an older form (without `auto_provision_source`) reads as the same role as a row in the
current form, but is stored differently. A retraction written in the current form then meets no row
and stays behind as a dangling `-1`. The repair cancels each such retraction and takes the older form
away, with every other row that reads the same; whatever does not fit that picture is reported and left alone.

- `src/` is the library, verified with Verus. `repair.rs` holds the repair, `upgrade.rs` the step to
  the next version, `reading.rs` and `writing.rs` the stored form of roles, `laws.rs` and `drift.rs`
  what is proved of all of them, `selection.rs` and `totals.rs` what those proofs rest on.
- `app/` runs an upgrade against a catalog: it converts rows, logs and performs the I/O.
- `tests/` holds the tests.
