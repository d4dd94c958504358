# neurographrag

A memory store for AI agents: memories with versions, an entity graph
between them, and embedding-based recall, kept in SQLite.

- `src/` is the verified library: chunking of long bodies for the
  embedding model, the breadth-first walk of the entity graph, language
  selection, error codes and messages, and the checks and texts of the
  commands. Verus proves every function there against its contract,
  except five small functions that only call outside code, whose
  contracts are taken on trust:
  - `render::push_char` (`String::push`),
  - `i18n::to_lowercase` (`str::to_lowercase`),
  - `hashing::blake3_hex_digest` (`blake3::hash` and `Hash::to_hex`),
  - `timestamps::format_rfc3339_utc` (chrono's `DateTime::from_timestamp`
    and `to_rfc3339_opts`),
  - `timestamps::parse_rfc3339_seconds` (chrono's
    `DateTime::parse_from_rfc3339` and `timestamp`).
- `app/` is the command line around it: argument parsing, SQLite access,
  embeddings (floating point), JSON output.
- `tests/` runs the library on concrete values.
