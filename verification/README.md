# org_core

An org-mode knowledge base library with an MCP server around it.

`src/` is the library, verified with Verus: configuration validation and TODO
keyword handling, heading formatting, the ISO timestamp grammar of requests,
agenda views and ranges (including repeaters), fuzzy search results, outlines,
heading and ID lookup, capture planning (where a new heading goes and what text
is inserted) and in-place heading updates (heading line, planning line,
property drawer, body). Each public function states its result in its
contract; `src/laws.rs` holds properties that span several operations.

Parsing of org text is done by `orgize`, fuzzy matching by `nucleo-matcher`,
date parsing and the local clock by `chrono`; the library calls them through
small trusted wrappers whose contracts say what is assumed of them.

`app/` is the server binary: command line, layered configuration, file
listing, locking and atomic writes, and the MCP tools and resources. `tests/`
runs the library on concrete inputs.
