# ld-notion-backend

The backend of a local knowledge-base desktop application: workspaces hold a
tree of pages, each page's content is a Markdown file with a small
frontmatter, and a SQLite database keeps the records, the page tree, the
trash, version history and a full-text index. An MCP endpoint lets AI
assistants read and edit the knowledge base.

## Layout

- `src/` — the library, verified with Verus:
  - `text.rs` — character-sequence primitives (whitespace, trimming,
    splitting, searching) stated over `Seq<char>`.
  - `engine/markdown_io.rs` — parsing and writing Markdown files with
    frontmatter; proves that reading back what was written gives the same
    content whenever the fields fit the format.
  - `engine/page_tree.rs` — building the page tree from the flat page list,
    cutting it at a depth, and checking that a descent ends.
  - `engine/page.rs`, `trash.rs`, `version.rs`, `image.rs`, `workspace.rs`,
    `tags.rs` — the records, file contents and names that the storage
    operations write.
  - `engine/backup.rs` — the backup archive a workspace is exported to, and
    what an import reads back out of one.
  - `search.rs`, `api.rs`, `config.rs`, `db.rs`, `mcp.rs` — search queries,
    request checks, configuration, the schema check, and JSON-RPC routing and
    the tool catalogue.
- `app/` — the server: SQLite statements, file I/O, HTTP routes (axum) and the
  MCP transport. It takes records, file contents, names, request checks and the
  configuration from the library; its own code is the SQL statements, file
  and network I/O, the search scores (floating point) and JSON encoding.
- `tests/` — tests of the library.
