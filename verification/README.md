# tdds-core

The engine of a queue-driven downloader for ThetaData market data,
written in Verus: every function in `src/` carries a contract, and
Verus proves each of them except the trusted wrappers (marked
`#[verifier::external_body]`) around std, chrono, chrono-tz and the
ThetaData SDK's registry, whose contracts are taken on trust.

- `src/` is the verified library: subscription-tier gating, the dataset
  and endpoint-call model, interval normalisation, the OpenAPI metadata
  scan and the catalogue it feeds, the queue's row format, the worker
  pool's decisions and counters, schedule cadences and the session a
  schedule should ask for, reading an output directory's file names into
  coverage, the missing trading days of a window, and the gaps a chart
  reports. Calls into chrono, chrono-tz and the ThetaData SDK's registry
  go through small trusted wrappers whose contracts say what those
  crates return.
- `tests/` exercises the library on concrete values.
- `app/` is the `tddx-store` command-line program around it: SQLite
  storage, the network client and worker tasks, file writers, Parquet
  reading, and the few computations done in floating point.
