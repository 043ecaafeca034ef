# careen_ledger

Append-only accounting of Cargo `target/` sweeps and the rebuilds they
cost, with its decisions verified by Verus.

- `src/` is the verified library.
  - `entry`, `stats`, `select`, `report`, `rank`: the sweep/rebuild ledger
    (`record-sweep`, `record-rebuild`, `report`, `hot-repos`): entry
    construction, the net of a rebuild against the latest sweep,
    per-repository totals, filtering by repository and age, the sorted
    report with its verdicts, and the ranking by rebuild count.
  - `paired`: sweep records and the attributions paired to them by id
    (`record`, `attribute`, `verdict`), the rebuild-cost rule, the
    `worth_careening` rule, and the `reason` of each build-log line
    (through `serde_json`).
  - `rpc`: the JSON-RPC server (`serve`): what each input line asks
    (parsed through `serde_json`) and what the server does with it.
  - `lines`: folding a ledger file's lines, skipping corrupt ones.
  - `path`: where the ledger lives.
  - `text`: equality and byte order of text, and trimming white space.
  - `clock`: the system clock's reading, the cutoff `days` days before it,
    and its RFC 3339 text (through `chrono`).
  - `error`: the errors of the sweep/rebuild ledger's operations.
  - `laws`: properties that span several operations.
- `app/main.rs` is the command line: argument parsing, file and stdio I/O,
  JSON encoding, all around calls into the library.
- `tests/` runs the library on concrete values.
