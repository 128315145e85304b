# linefeed

The verified core of Linefeed, a graphical IRC client. Everything under `src/`
is written in Verus: each public function states its behaviour in `requires` /
`ensures` over mathematical models (`Seq`, `Map`, views of the library's
types), and Verus proves the code against those contracts.

## Layout

- `src/` — the library, one module per concern:
  - text and formatting: `text`, `formatting` (mIRC colour codes, spans,
    URL splitting), `numfmt`, `calendar`, `helpers`
  - IRC data: `casemap`, `glob`, `network` (ISUPPORT), `modes`, `channel`,
    `message`, `caps`, `batches`, `history`, `ctcp`
  - the input line: `slash` (parsing of `/` commands into plans),
    `commands`, `completion`, `outgoing` (line splitting)
  - the client: `incoming` (routing of server messages), `client` (the
    window state and its step functions for server events, numerics and
    command plans), `session` (reconnect back-off, connection intent),
    `presence` (auto-away, lag), `listing`, `logging`
- `tests/` — ordinary Rust tests that run the compiled library.
- `app/` — the unverified shell around the library: settings files, log
  files, local time, rendering helpers and the driver that performs the
  actions the step functions return.

## Model of the client

The client is a state machine. `ClientState::apply_incoming`,
`apply_numeric` and `apply_plan` each take the state and one event (a
server message, a numeric reply, or a parsed command) and return the new
state together with a list of `ClientAction`s: lines to send, notes to show,
connections to open or close. Their contracts give the new state and the
action list exactly, as spec functions of the old state and the event; the
driver in `app/` carries out the actions.

The outside crates are reached only through small trusted wrappers, each
with a doc comment saying what is assumed of the call.
