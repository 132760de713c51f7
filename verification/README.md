# nx_layout_toolbox

Readers, writers and transforms for Nintendo Switch resource formats,
written in Verus. The functions under `src/` carry contracts that the
verifier checks against their bodies; the few that call `std` or an outside
crate (UTF-8 and character conversions, LZ4 block decoding, zstd frames) are
marked `external_body`, and their contracts, which say what those calls
return, are trusted rather than proved.

## Layout

- `src/sarc/` — SARC archives: reader, writer (name-hash order, per-file
  alignment), and the laws that a written archive reads back with its data
  at aligned offsets.
- `src/restbl/` — RESTBL resource-size tables: CRC-32, binary search over
  the sorted tables, get/set/insert, reader and writer, and the write/read law.
- `src/msbt/` — MSBT message files: sections, labels, messages as text runs
  and control tags, UTF-16 text, and the canonical-writer and chunk laws.
- `src/nso.rs` — NSO executables: header, segments, LZ4 segment inflation.
- `src/mc/` — MC mesh containers: header, zstd frames, the mesh section, and
  the geometry transport (forward var-ints, the state-0 symbol table, raw
  windows, copy/delta/row transform tails, the vertex attribute source
  setup).
- `src/meshopt/` — the meshoptimizer 0.15 vertex, index and index-sequence
  codecs, with round-trip laws.
- `src/texpipe.rs` — texture mip-level arithmetic.
- `src/bytes.rs`, `src/lex.rs`, `src/order.rs` — byte fields, lexicographic
  order and stable sorting shared by the formats.
- `tests/` — tests of the library on concrete inputs.
- `app/` — the command-line program: argument handling, file I/O, and the
  floating-point transform tails, which stay outside the verified library.

## Checking

The library is verified with Verus; the tests run with the outside crates
(`lz4_flex`, `ruzstd`) linked.
