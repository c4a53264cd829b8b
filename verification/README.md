# quarto-source-map (verified core)

Source-location tracking with byte-range provenance, verified with Verus.

- `src/source_info.rs`: `SourceInfo` (`Original`, `Substring`, `Concat`),
  its length and byte-range resolution.
- `src/provenance_builder.rs`: `ProvenanceBuilder`, which tiles decoded
  content against source bytes; its model `BuilderModel` and what `finish`
  emits for each state (`BuilderModel::emits`).
- `src/provenance_laws.rs`: what whole runs of `verbatim` / `replacement`
  calls do: abutting calls tile, all-verbatim runs collapse, replacements
  never collapse, the emitted length is the decoded length, parent-rooted
  builders emit substrings of that parent.
- `src/file_origin.rs`: `FileOrigin` and its display label.
- `app/`: serde / JSON-schema copies of the library types.
