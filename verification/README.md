# sirno

Sirno keeps a project's design knowledge as a lake of Markdown entries: each entry has a
YAML frontmatter block (name, description, managed metadata and structural links to other
entries) and a body. This crate is its core, written in Verus: the functions in `src/` carry
`requires`/`ensures` contracts and are proved against them. Where a result comes from an
outside crate (the YAML serializer, a table renderer, the terminal), the contract names that
result rather than stating it.

## Layout

- `src/` — the verified library.
  - `address`, `text`, `sorted`, `path`: entry addresses, text helpers, sorted address
    lists and Unix path components.
  - `entry`, `frontmatter`, `yaml`, `render`: the entry model, the frontmatter block, reading
    metadata from YAML and writing it back.
  - `structural`, `meta`, `check`: structural relations, the metadata registry and the
    lake check with its diagnostics.
  - `config`: `Sirno.toml` settings, their validation and the canonical commented text.
  - `artifact`, `charm`, `digest`, `anchor`: entry artifacts, charm bundles, SHA-256
    fingerprints and the accepted baseline with its atomic write.
  - `tide`, `table`, `report`, `output`, `query`, `search`: tide statuses and tables, result
    records and their human output, query options and ripgrep requests.
  - `context`, `project`, `relocate`, `seed`, `skills`: command decisions and results, the
    move of a configured path with rollback, the seed entries of a new lake and the bundled
    skill wrappers.
- `tests/` — tests of the library.
- `app/` — the `sirno` command line: argument parsing, the file system and printing. It
  reads what a command needs, hands the library plain values and carries out what the
  library decides.

Outside crates are reached through a small set of trusted wrappers, each documented where it
stands: `serde_yaml`, `regex`, `toml`, `sha2`, `comfy-table` and `unicode-width`.

Ordered maps keyed by text (structural fields, anchor entries, upstreams) are held as vectors
of pairs in insertion order, with unique keys kept by a type invariant or a checked
well-formedness predicate.
