# qlaro

The data-catalog core of Qlaro, written in Verus: schema inference for delimited
text, the canonical Arrow type contract, content fingerprints and dataset version
identities, the in-memory catalog, column profiling, storage-format detection,
batch sampling and the ingestion protocol.

- `src/` is the verified library. Its modules: `text` (trimming, case folding,
  decimal and hex text, code-point order), `recognizers` (integer and decimal
  number syntax; chrono's date parsers), `schema` (the Arrow schema model and
  the canonical contract), `schema_inference`, `profiler`, `hashing`, `types`,
  `cancel`, `catalog`, `format` (format detection, batch sampling), `ingest`
  (the ingestion state machine) and `ipc` (what Arrow IPC deserialization accepts).
- `app/` is ordinary Rust around it: file and stream I/O, conversions between
  Arrow values and the library's models, Arrow IPC and Parquet reading,
  floating-point statistics, the catalog behind a lock, the ingestion loop, and
  serde-capable copies of the library's types.
- `tests/` exercises the library.
