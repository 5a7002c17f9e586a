# iostore_uasset

Reading and writing Unreal Engine IoStore `.uasset` packages: the binary
form (summary, name map, tagged properties) and an indented, YAML-like text
form of the same data. The library is written in Verus; every function in
`src/` carries a contract and is proved against it.

## Layout

- `src/types.rs` — the package types and their models (`ObjectModel`,
  `PropertyModel`, `DataModel`, ...).
- `src/format.rs` — the binary format as functions on byte sequences
  (`parse_*` for reading, `*_bytes` for writing).
- `src/reader.rs`, `src/writer.rs` — `from_buffer` / `to_bytes`, proved to
  compute those functions; `src/write_check.rs` decides when a value can be
  written.
- `src/laws.rs` — writing bytes and reading them back gives the value back.
- `src/text_format.rs`, `src/text_writer.rs` — the text form and
  `to_string`; floats are left as bit patterns for the caller to format.
- `src/text_parse.rs`, `src/text_reader.rs` — reading text, stated over its
  lines, and `from_string`.
- `src/text_lines.rs`, `src/text_roundtrip.rs`, `src/text_readback.rs`,
  `src/text_facts.rs` — the proof that reading written text gives the
  object back (`lemma_text_roundtrip`, also stated by `IoUObject::to_string`).
- `src/text_table.rs` — reading looks floats up only at the texts that
  `float_candidates` lists (`lemma_table_candidates`).
- `src/le_bytes.rs`, `src/b64.rs`, `src/text_codec.rs` — the calls into
  `byteorder`, `base64` and std's string decoding, each behind a small
  trusted wrapper.
- `app/` — I/O around the library: reading and writing files and streams,
  formatting and parsing floats, error types for callers.
