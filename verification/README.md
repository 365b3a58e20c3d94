# standard_knowledge

CF standard names augmented with operational knowledge: long names, IOOS
categories, common variable names, related standards, Xarray attributes and
QARTOD test suites. The library is written in Verus: its own functions carry
contracts that Verus proves. The calls into `flate2` and two `std` string
functions sit in small `external_body` wrappers whose contracts are trusted,
not proved.

Layout:

- `src/text.rs`, `src/assoc.rs`: text helpers and ordered association lists
  (the library's ordered maps), with their order lemmas.
- `src/tree.rs`: the configuration documents of test suites.
- `src/compressed.rs`: gzip decompression of embedded tables.
- `src/cf.rs`, `src/knowledge.rs`: the CF standard name table and knowledge
  entries, and the standards a table describes.
- `src/standard.rs`: a standard, its displays, Xarray attributes and search.
- `src/standards_filter.rs`, `src/standards_library.rs`: the library and its
  filters.
- `src/laws.rs`: properties that span several operations.
- `app/`: a small program that looks a standard up, and `app/loading.rs`, which
  reads tables and knowledge from YAML or JSON text with serde's typed
  deserialization and hands the library the values.
- `tests/`: scenarios on concrete values.
