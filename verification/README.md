# zero_claw

A minimal agent runtime: an LLM tool-calling loop over MCP servers, exposed over HTTP (SSE),
an interactive terminal, Telegram and WeChat, with SQLite persistence and recurring
"loop" prompts.

`src/` is the verified library (Verus). It holds the runtime's decisions and data
handling, each with a contract:

- `text` — character-level string functions, UTF-8 byte accounting and the splitting of
  long replies into chat-sized pieces (proved to reassemble to the text).
- `loop_sched` — schedule parsing, the loop-job registry and the `loop_*` tools.
- `agent`, `anthropic`, `chat` — stream framing, assembly of streamed turns, the run's
  round limit, and the conversion of the conversation to the Anthropic Messages format.
- `run` — a whole agent run composed from those steps, with its laws: no `start` event,
  exactly one final `done` or `error`, `done` carrying all streamed text, and a history that
  is only appended to.
- `config`, `mcp`, `store`, `server`, `cli`, `telegram`, `wechat` — configuration
  placeholders, tool naming, and the decisions of each channel.
- `json`, `clock`, `ids` and a few wrappers elsewhere — the trusted boundary to
  `serde_json`, `std::time`, `uuid`, `base64` and std's string functions.

`app/` is the program around it: sockets, processes, the database, timers and the
event loops that perform the library's decisions.
