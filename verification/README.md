# pcurl

pcurl runs `curl` and shows the response readably in the terminal: a status
badge, aligned headers, JSON and XML bodies indented and colored, server-sent
events echoed as they arrive. It also speaks to WebSocket servers
interactively and posts MCP (JSON-RPC over SSE) calls.

## Layout

- `src/` is the library, verified with Verus. Each public function states in
  its `ensures` what it returns, over spec functions on `Seq<char>` and the
  views of the library's types. Output is computed as a sequence of styled
  spans (`render::Span`), so that what is printed is specified too.
  - `text`: trimming, splitting, searching on characters.
  - `curl_parser`: the shell-like tokenizer, the curl command model and the
    arguments handed back to curl; `quoting` writes those arguments back
    as a command line and states what parsing it again gives.
  - `json_text`: compact JSON text of a value, escaped as serde_json does.
  - `display`, `json`, `xml`, `stream`: splitting `curl -i` output, the
    status, headers and body views, and the decisions taken while output
    streams in.
  - `cli`, `mcp`, `ws`, `version`, `doctor`: what the command line asks for,
    MCP bodies and sessions, WebSocket session rendering, release tags, and
    the installation report.
  - Public `law_*` proof functions state properties that span functions.
- `tests/` runs the library on concrete values.
- `app/` is the program: argument parsing with clap, terminal colors with
  `colored`, child processes, files, HTTP and WebSocket I/O.
