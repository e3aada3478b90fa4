# semantic_edit_mcp

AST-aware code editing for a Model Context Protocol server, with the editing
logic verified by Verus.

An edit names its target by anchor text copied from the file (matched
whitespace-insensitively) or by an item reference (`{kind, name}`). The
library resolves the target to syntax-node boundaries in a tree-sitter parse,
builds the candidate placements in order, re-indents content to its
surroundings, checks that the result still parses, and reports the change as
a focused diff.

## Layout

- `src/` — the verified library.
  - `text`, `searcher`, `indentation`: character and byte arithmetic on
    source text, the whitespace-insensitive anchor search, indentation
    detection and re-indentation.
  - `syntax`: the tree-sitter parse read into a node table in preorder; the
    calls into tree-sitter sit behind small trusted wrappers whose results
    are named.
  - `editor`: candidate placements, the edit engine, syntax-error reports and
    diffs.
  - `languages`: per-language adjustments (Rust attributes and comments,
    Python blocks, TOML ordering, JSON/JS commas, Markdown spacing) and the
    formatter command lines.
  - `item`, `selector`, `operations`, `editors`, `parsers`, `ast_explorer`:
    item references, selectors, node-targeted edits and exploration.
  - `state`, `staging`, `education`: per-session state, undo, and the tips
    the server gives.
- `tests/` — tests run against the compiled library.
- `app/` — the server: the protocol loop, file and process I/O, and the
  tool definitions. mcplease hands the server its requests as an async
  stream of calls; `futures-lite`'s `block_on` drives that stream on the
  main thread, which is all the executor the server needs. The session
  (staged edit, teaching progress, working directory) is kept in JSON files
  under `~/.ai-tools/sessions/`, or at `MCP_SESSION_STORAGE_PATH`.

Laws the library keeps are stated as public proof functions named `law_*`.
