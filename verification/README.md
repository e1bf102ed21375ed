# wubrag

Retrieval over a source tree: the files of a directory are split into chunks,
the chunks are embedded and put into a nearest-neighbour index, and text
queries are answered with the nearest chunks.

The library (`src/`) is written in Verus and verified:

- `text`: the character model of text — Unicode whitespace, trimming,
  splitting on blank lines (`"\n\n"`), exact substrings by character or byte
  position, and the UTF-8 facts they rest on.
- `document`: documents and their 32-byte identifiers.
- `hashing`: SHA-256 (from the `sha2` crate), the chunk identifiers' hash.
- `syntax`: the tree-sitter grammars, the queries for top-level items, and the
  captures tree-sitter finds with them.
- `chunking`: chunking by paragraph, by syntax, per document and per
  collection, with the laws the chunks obey.
- `id_index`: the index from chunk identifiers to positions.
- `embedding`, `indexing`, `service`: batching for the embedding model, index
  parameters, and the service's replies and result descriptions.

`app/` reads directories from disk, embeds chunks with `fastembed`, indexes
them with `hnsw_rs`, and answers `index <path>` / `search <text>` requests read
from standard input.
