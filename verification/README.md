# code_core

The decision logic of the Every Code agent, written in Verus and proved
against its contracts: what goes into a model request, the auto review run
ledger, skill files and command policies, account switching on rate limits,
concurrent sessions in one checkout, session leases, MCP OAuth tokens and
callbacks, the search path of MCP servers, and the web gateway: its request
rules, history paging, the decisions of its websocket streams and of its
broker relay, session listings, and the development server it manages.

## Layout

- `src/` — the verified library. Each module states its data as views
  (`Seq`, `Map`, `Set` over plain values) and every public function says in
  `ensures` what it returns. Calls into `regex-lite`, `shlex`, `sha2`,
  `uuid`, `urlencoding` and a few `std::path` functions go through small
  trusted wrappers whose doc comments say what is assumed of them.
  - `text`, `order`: character sequences, trimming, words, decimal text,
    lexicographic order.
  - `keyed_list`: a list of `(key, value)` pairs seen as a map.
  - `context_ledger`: request context accounting, duplicate groups and the
    size of conversation items.
  - `review_run`, `review_detail`, `review_ledger`, `review_store`: the auto
    review run store, detail lookups and the compact ledger.
  - `skill_model`, `skill_loader`, `skill_render`, `command_policy`: skill
    metadata validation, discovery decisions, rendering and command policy
    matching.
  - `account_switching`, `oauth`, `oauth_callback`, `mcp_env`: accounts,
    MCP credentials, the OAuth callback and MCP server environments.
  - `active_sessions`, `session_lease`, `process_liveness`,
    `conversation_hub`: sessions, leases and pending client requests.
  - `rollout_history`, `rollout_cache`: history pages, and the line count
    and line index caches of rollout files.
  - `gateway_web`, `gateway_stream`, `gateway_sessions`,
    `process_listing`: gateway request rules, websocket stream routing and
    the broker relay's bookkeeping, session listings, and reading `ps` and
    `lsof` output.
  - `protocol`: configuration and protocol value types.
- `tests/` — tests run against the compiled library.
- `app/` — files, processes and the environment around the library (plain
  Rust, not verified): reading and writing the stores, walking skill
  directories, git and lock files, driving the gateway's streams against a
  host, and running the development server.
