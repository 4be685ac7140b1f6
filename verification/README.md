# overlay_app

The state behind an always-on-top overlay that shows what AI coding agents
(Codex Desktop, Cursor and others) are doing. Agents run a hook binary for
every hook event; it relays the event's JSON to a local listener, which keeps
one session per conversation and labels what each session is doing.

## Layout

- `src/` — the library, verified with Verus:
  - `apply.rs`, `session.rs`, `files.rs`: what each hook event does to the
    session table (status, current action, activity feed, per-file diff
    totals, done summaries).
  - `bash.rs`, `events.rs`, `post.rs`: labels for shell commands and tool
    calls, and the parsers for tool output (test results, `rg`, `git`, `gh`).
  - `routing.rs`: child conversations rolled up into their parent session.
  - `hook_config.rs`, `claude_hooks.rs`, `cursor_hooks.rs`,
    `codex_hooks.rs`: installing and removing the overlay's entries in each
    agent's hook settings, leaving the user's own entries alone.
  - `relay.rs`, `log_lines.rs`: the hook relay's envelope and the debug log
    lines.
  - `ui.rs`, `layout.rs`, `procs.rs`: focus targets, window placement and
    the process-tree walk that finds an agent's desktop window.
  - `text.rs`, `json.rs`, `assoc.rs`: strings, a JSON value with its
    mathematical model, and association lists.
- `tests/`: tests run against the compiled library.
- `app/`: the program around it — the HTTP listener, the relay's I/O, file
  reading and writing for the hook settings, the log writer and the Windows
  calls.
