# mcpify

A config-driven runtime that turns `exec` commands, `http` endpoints, SQL
queries and pipelines of these into MCP tools, and supervises the local
services they depend on.

## Layout

- `src/` — the verified library (Verus). Everything that decides is here, with
  its contract:
  - `config/` — the config model, its validation, the diff between two
    configs, and where the config file is looked for;
  - `template/` — `{{var}}` rendering;
  - `adapters/` — what an exec, http or sql tool runs for a call (rendered
    arguments, headers, auth, bound SQL), the http retry rule, and the results
    a statement or query gives;
  - `runtime/` — the tool registry, pipelines, the result cache and its
    pollers, and reload decisions and their order;
  - `supervisor/` — service state, health verdicts and the restart rule;
  - `mcp/` — what the server lists and answers, the dependency and
    destructive-tool gates;
  - `cli/` — the text the subcommands print.
- `app/` — the `mcpify` program: command line, files, processes, sockets, the
  MCP transport and the async loops. It asks the library at each decision.
- `tests/` — tests of the library.
