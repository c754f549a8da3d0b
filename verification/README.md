# ai-audit

Session auditing for coding agents: locating, classifying, reading and scoring
the sessions that agents leave behind.

- `src/` is the library. Every function states what it returns in `requires` and
  `ensures` clauses, which Verus proves.
- `app/` is ordinary Rust around it: files, the database, processes, the
  terminal and the network.
- `tests/` runs the library on examples.

## The library

| Module | What it holds |
| --- | --- |
| `text`, `order`, `paths`, `table`, `time`, `json`, `pattern`, `steps` | what the rest is built on |
| `provider`, `project`, `transcript` | sessions, projects and conversations |
| `session_detect` | from a terminal screen to the session that it shows |
| `session_filter` | lists of sessions, filtered and extended |
| `session_index` | an index of sessions by directory, and how it is kept up to date |
| `opencode` | records, transcripts, permissions, states and nudges of OpenCode |
| `pi` | session files, transcripts, tasks and deletion for Pi |
| `rate` | test cases, judges and reports |

Functions that depend on the world take what they ask of it as a closure, and
their contracts hold for every answer. Where the order and the number of the
questions matter, a `next_step` function says for the answers so far what is asked
next, and the function that asks hands a state of the world from each question to
the next, so that none can be left out, repeated or moved.

The calls into other crates stand behind a few trusted functions, each with a
comment that says what is taken on trust: `serde_json` in `json`, `regex` in
`pattern`, `chrono` in `time`, `base64` in `opencode::server_client`, `blake3` in
`opencode::permission_log`, and a few functions on text of the standard library
in `text` and `pi::attribution`.
