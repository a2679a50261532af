# algorep

A Raft replicated file store, verified with Verus.

- `src/` is the verified library. A node is a state machine: for each
  received message, expired timer and operator action it computes its next
  state and a list of effects (messages to send, log to save, status to show,
  file to load). Modules: `entry` (log entries), `state` (the store the
  committed entries are applied to), `message` and `parse` (messages and the
  console grammar), `role`, `node` (the node and its elections and heartbeats),
  `server` (messages of other servers), `clients` (client commands and their
  answers), `repl` (operator actions), `events` (the decisions of the event
  loop and the election timeout), `quorum` (order statistics of match
  indices), `client` (which server a client talks to), `config`,
  `persistent_state`, `text` (characters, numbers and strings) and `laws`
  (properties across steps).
- `app/` is the program around it: tokio channels and tasks, the event loop
  that performs the effects, the node files (CBOR) and the configuration (RON).
- `tests/` runs the library on concrete scenarios.
