# dev_fixtures (verified core)

Repeatable test environments, sample data and controlled inputs, with the
logic proved by Verus.

## Layout

- `src/` — the verified library.
  - `mock.rs` — the splitmix64 generator `Rng`; `mock/bytes.rs` (zeros,
    patterned, random bytes), `mock/csv.rs` (RFC 4180 rendering, generation,
    parsing, and the round-trip proof), `mock/json_array.rs` (array generation
    and the JSON validator with its error messages);
    `mock/json_laws.rs` (the proof that arrays of valid elements validate);
    `mock/json_grammar.rs` (the JSON grammar and the proof that the validator
    accepts exactly the JSON texts).
  - `golden.rs` — first differing offset, hex preview, and the decisions of
    text and binary snapshot comparison; `golden/diff.rs` — the line diff along
    a longest common subsequence of the lines, with the proof that it is one.
  - `tree.rs` — staged file trees and the crate / workspace layouts.
  - `adversarial.rs` — malformed UTF-8 bytes and unusual file names.
  - `report.rs` — the check results the library computes.
  - `lib.rs` — temp-project staging, the `Fixture` trait and the fixture
    set-up / lifecycle checks.
  - `text.rs` — string helpers (character pushes, decimal formatting).
- `app/` — the file system, clock and environment side: temp directories,
  materializing trees, reading and writing snapshots, writing adversarial
  files, and turning checks into `dev_report` results.
- `tests/` — tests of the library.
