# proka_exec

Definitions of the proka executable format, with a builder that lays out an
image and a parser that reads one back, verified with Verus.

- `src/header.rs`: the 128-byte file header, its encoding and its checks.
- `src/sections.rs`: section index entries, section headers, and the table
  that reads them out of an image.
- `src/codec.rs`: little-endian reading and writing of integer fields.
- `src/utils/`: name helpers, the builder, the parser, and the proofs that
  the parser reads back what the builder wrote (`roundtrip.rs`).
