# arxiv_mcp

An MCP server for searching arXiv and downloading paper PDFs.

- `src/` is the verified library: the search and PDF URLs (`url`), reading
  papers out of a search results page and the outcome of a download
  (`arxiv`), the request types and paper metadata (`models`, `server`), the
  paths that downloads are written to and the paper manifest (`server`), the
  errors (`error`) and the string helpers these rest on (`text`).
- `app/` is the program around it: the HTTP client, the file system, and
  the MCP protocol.
- `tests/` runs the library on concrete inputs.
