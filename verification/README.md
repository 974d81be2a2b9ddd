# agentforge_ui

The decisions behind the AgentForge desktop interface, written in Verus and proved
against their contracts: what each panel lists, filters, counts, labels, validates
and lays out, independent of the window toolkit that draws it.

- `src/` — the verified library, one module per concern: text helpers (`text`),
  providers and their credentials (`providers`), the MCP marketplace (`mcp`),
  the knowledge base and its file tree (`knowledge`, `filetree`, `paths`), the
  memory bank (`memory`), orchestration and monitoring figures (`orchestration`,
  `monitoring`, `agents`), the workflow canvas (`flow`, `history`), teams and
  sessions (`teams`, `session`), markdown (`markdown`), settings, themes, the
  command palette, onboarding and the responsive breakpoints. The calls into
  outside crates (chrono, uuid, pulldown-cmark, reqwest's URL parser, serde_json,
  urlencoding) and into `std::path` stand behind small trusted wrappers whose
  contracts say what the library relies on.
- `tests/` — tests of the library on concrete values.
- `app/` — what the library cannot hold: the environment, files, process-wide
  flags, serde copies of records, and the floating-point geometry of the charts
  and canvases.

Laws that span several calls (undo and redo, toggling twice, the order of the file
tree, what a saved server configuration may hold) are public proof functions named
`law_*`.
