# hermes_desktop

The logic of a desktop companion for the Hermes agent, verified with Verus.

- `src/` is the library. Every function in it carries a contract that Verus
  proves: reading and editing `config.yaml`, `.env`, `auth.json` and the
  desktop settings; the JSON model and dotted-path access; decoding the chat
  API's event stream and the CLI's output; the commands sent to a remote host
  over `ssh`; the session cache; memory entries, saved models, MCP servers,
  skills, cron jobs, kanban commands, the 3D office and the installer's
  bookkeeping. Calls into `serde_json`, `url` and `base64` go through a few
  trusted wrappers whose contracts name what those crates return.
- `tests/` exercises the library on concrete values.
- `app/` is the shell around it: file and network I/O, processes, SQLite and
  HTTP, handing plain values to the library and taking its answers back.

Laws that relate several operations (a cache read after a write, the stream
decoder's independence from how the text was cut, path writes followed by
reads, server and model lists after adds and removals) are stated as public
proof functions named `law_*`.
