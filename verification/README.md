# monad

The core of a build tool for workspaces of many units: which tasks there are, what their cache keys
take in, what is planned and run, and what is reported of it.

`src/` is the library, written in Verus. Its functions state what they return, and Verus proves it; the
proof functions whose names begin with `law_` state what holds across functions.

What outside code returns is stated and not proved. These items call it, and their contracts are
believed:

- globset: `new_builder`, `add_glob`, `build_set` and `set_is_match` in `globs`
- blake3: `blake3_hash` in `digest`
- serde_json: `parse_value`, `open_value`, `value_u64` and `map_entries` in `json`
- base64: `base64url_decode` in `cloud`
- std: `String::push` in `text`, `lossy` in `excerpt`, `text_of` and `debug_text` in `framing`, and
  `unix_seconds` in `deploy_state`, which states nothing of the time that it reads

The laws on signatures and keys take the digest to tell the messages at hand apart.

- Workspace: `config`, `discovery`, `inventory`, `graph`, `tasks`, `workspace_ctx`
- Keys: `digest`, `globs`, `cascade`, `keys`, `diff`
- Planning: `plan`, `why`, `prime`, `artifacts`
- Running: `run`, `unit_run`, `execute`, `command`, `notification`, `deploy_state`, `excerpt`,
  `diagnostic_parsers`
- Reporting: `report`, `doctor`, `cloud`
- Plugins: `framing`, `protocol`, `wire`, `client`
- Server: `tools`
- Groundwork: `text`, `path`, `pathset`, `order`, `sort`, `strmap`, `deep`, `json`

`app/` is the server around it: it reads files, runs commands and talks to plugins, and asks the
library what to do. `tests/` runs the library on concrete values.
