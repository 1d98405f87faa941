# hdr10plus

A library and command line tool for HDR10+ dynamic metadata (SMPTE ST 2094-40) in
HEVC and AV1 video: it extracts the metadata to a JSON document, injects the metadata
of a JSON document into a video, removes it, edits JSON documents and plots them.

The library under `src/` is verified with Verus: each public function carries a
contract over a mathematical model of its values, and the laws that relate several
functions (a metadata payload parses back to what was encoded, reordering sorts by
presentation order and keeps every entry, the metadata of a JSON frame is written back
as that frame, and more) are stated and proved as public proof functions.

- `bits`: the bit-level model of MSB-first bitstreams, and the bit readers and writers
  of `bitvec_helpers`.
- `metadata`, `roundtrip`: the HDR10+ metadata, its parsing, validation and encoding,
  and the proof that parsing gives back what encoding wrote.
- `json`: the JSON document model, conversions, scene information.
- `hevc`, `sei`: SEI NAL units, emulation prevention bytes, SEI messages.
- `av1`: LEB128, metadata OBUs, the search for HDR10+ T.35 payloads.
- `extract`, `inject`: the decisions of extraction and injection.
- `editor`: removal and duplication of frames.
- `llc`, `truncating`: the older LLC text format and the truncating encoder.
- `commands`: the command line arguments as plain values.

`app/` holds the command line tool: argument parsing, file and stream I/O, JSON
(de)serialization and plotting.
