# maestro_model_router

The decisions behind a router that serves a catalog of local models through
one OpenAI-compatible endpoint, each stated as a contract and proved with
Verus.

- `src/catalog` reads a catalog: its TOML lines, its tables, every field with
  the problem that names it, the defaults table, the entries in order of
  identifier, models found under the models root, and memory estimates
  derived from what a model's files hold.
- `src/admission` decides whether a model fits under the memory budget and
  on the device, and which idle on-demand models make room when it does not.
- `src/proxy` answers for the router itself: listings, replies and refusals,
  the catalog being served with its table of slots and what a reload of it
  changes, the line for room, permits, and metrics text.
- `src/access`, `src/settings`, `src/ending` hold who may call, what the
  environment configures, and how a run ends.
- `src/gguf` reads the metadata at the head of a model file from its bytes.
- `src/launch`, `src/memory`, `src/stub`, `src/bench` hold the parts of
  starting a server, keeping what a child says, reading memory, the stand-in
  server and measuring rates that compute rather than do I/O.
- `app/` is the `model-router` binary, as far as it goes: `check`, which
  reads a catalog file and says whether it is usable, and `--version`. The
  commands that serve, launch and measure models -- the listener, the
  children, the relay and the sleeping between looks at the room -- are not
  written here; the decisions they would make are the library's.

Everything under `src/` is verified but for three small functions whose
contracts are taken on trust: `push_char`, which appends a character with
`String::push`; `lossy`, which reads a child's bytes as text with
`String::from_utf8_lossy`; and `json_quoted`, which quotes text as JSON with
`serde_json::to_string`. The tests under `tests/` exercise the compiled
library from outside.
