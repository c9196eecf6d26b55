# lore

A local documentation server for coding assistants: documentation sources
(Markdown, HTML, AsciiDoc, reStructuredText, rustdoc JSON, websites) are
parsed into heading trees, cut into token-bounded chunks, indexed in one
SQLite database per package, and searched over MCP or from the command line.

## Layout

- `src/` — the library, verified with Verus. Parsers, the structural and
  semantic chunkers, the API-manifest builder and API diff, dependency
  detection from project manifests, package keys and specs, the crawl
  frontier, FTS query sanitising and the token budget, and the text the MCP
  tools answer with. Each public function states its result in its
  `ensures`; the `law_*` proof functions state properties that span calls
  (a diff read backwards swaps additions and removals, a crawl visits each
  page once, a session never returns a result twice, a stored node path
  names its ancestors, …).
- `tests/` — tests of the library on concrete inputs.
- `app/` — the `lore` program: the command-line interface, the SQLite
  store, the embedding model, hybrid ranking (floating-point fusion and
  diversity selection), fetching sources, and the MCP server. It hands plain
  values to the library and prints or sends what comes back.

Calls into outside crates that compute (Markdown events, HTML to Markdown,
CSS selection, URL handling, JSON and TOML parsing, BPE token counts) stand
in `src/` behind small trusted wrappers whose contracts name their results.
