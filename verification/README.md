# rust-openai-chat

A command-line chat for Azure OpenAI deployments, with streamed replies
(server-sent events) and tools from MCP servers over stdio.

The logic is a library verified with Verus (`src/`):

- `json` — JSON documents, their compact text (as `serde_json` writes it) and
  lookups; parsing goes through `serde_json`.
- `text` — trimming, ASCII case folding and decimal text of numbers.
- `stream` — the decoder of the event stream: `data:` lines, content deltas,
  `[DONE]`.
- `chat` — request bodies, URL and headers, settings from the command line and
  the environment, the conversation, user commands and the tool-call turns.
- `mcp` — the configuration, JSON-RPC requests and responses of an MCP server,
  and the registry of tools by server.

`app/main.rs` holds what is left: the command line, the terminal, HTTP, the
server processes and the YAML file.  `tests/` exercises the library.
