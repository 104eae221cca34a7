## hutc

A Lua-driven HTTP API test runner. Test scripts under `tests/` (or a path
given on the command line) register tests with `test("name", fn)`, build
requests through an `http` client, and check responses with `expect`.

The crate has two parts.

- `src/` is the library, verified with Verus: the `.env` parser and its
  grammar (`env`, `env_grammar`, `env_laws`), version comparison for update
  notices (`update`), the request builder and its URL targets (`http`), the
  reports of Lua errors (`lua`), which files are test scripts (`fs`), the
  bookkeeping of a test run (`runner`), assertion messages (`expect`), the
  command line (`cli`), and a string map with a verified view (`string_map`).
  Calls into `reqwest`, `serde_json` and `std::path` stand behind small
  trusted wrappers whose contracts are documented where they are declared.
- `app/` is the program around it: argument parsing with clap, the Lua
  runtime (mlua), file and network I/O, and the async runtime (tokio).

Commands:

- `hutc test [path]` runs all `.lua` tests under `tests` or `path`.
- `hutc init [path]` writes `hutc.defs.lua`, the LuaLS definitions, into
  `tests` or `path`.
