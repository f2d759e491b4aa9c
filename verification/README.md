# SigmaRift

A terminal workspace for a local GGUF model that can run shell commands. The model runs
in a bundled `llama-server` on the loopback interface; sessions, prompts and settings are
plain files beside the program.

The decisions of the application are a library verified with Verus (`src/`):

- `session` — stored sessions and messages, titles and identities, the model history
  built from a session, and the system prompt.
- `control` — the authoritative state: stored sessions, the active one, and the single
  in-flight user turn. It decides each step of a turn (stream, tool calls, commands,
  persistence, interruption) from the events the caller observes.
- `stream` — the HTTP response of a streamed chat completion: status line, headers,
  chunk framing, server-sent events, and the accumulation of streamed tool calls.
- `execute` — bounded output capture and the supervision of a running command.
- `model` — bundled models, the startup model selection, and the runtime's arguments.
- `catalog` — which files of the bundle's directories the application uses.
- `ui` and `screen` — keys, focus, cursors, overlays, scrolling, and what each screen
  shows.
- `text`, `paths`, `json` — the string, path and JSON helpers the rest is built on.

`app/` is the program around the library: the terminal, file and network I/O, processes,
sampling settings (which hold floating-point values), and drawing with ratatui.
