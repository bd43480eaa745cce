# cad_core

Core data handling of a small CAD/BIM toolkit, written in Verus: every
function under `src/` carries a contract that Verus proves.

- `src/attribute_codec.rs`, `src/bitset_codec.rs`, `src/entity_data.rs`,
  `src/bytes.rs`: byte encodings of IFC attribute values as an attribute
  store keeps them, with their round-trip laws.
- `src/lexer.rs`, `src/spf.rs`: the character stream and lexer of STEP
  physical files, token classification, binary literals and the rendering of
  values back into STEP text.
- `src/header.rs`: reading the header section of a STEP file from the lexer
  and writing it back out.
- `src/valuation.rs`: how the values read for an instance's attributes are
  held, how the values of a list settle on one element type, and which
  references wait to be resolved.
- `src/memory_storage.rs`: an instance's attribute values held in memory,
  their type index and type test, and the same questions put to the
  attribute store.
- `src/fetch.rs`: reading an attribute value back, from memory or from the
  bytes stored for it.
- `src/p21.rs`, `src/file_kind.rs`: a light statement reader for importing
  IFC geometry, and telling STEP files from attribute stores.
- `src/schema.rs` and `src/schema/`: the schema registry.
- `src/logger.rs`: what the message log keeps and how a line reads.
- `src/util.rs`, `src/text.rs`, `src/seq_concat.rs`: argument types, XML
  escaping, and character helpers.

`app/` holds what Verus does not see: the process-wide logger with its clock,
streams, JSON lines and timing; the global schema registry; file access; and
the floating-point side of the IFC reader.
