# herdr_control

The verified core of Herdr's control streams. A control stream is one long-lived
connection that carries requests, event subscriptions and raw terminal output
for a client that renders panes with its own terminal emulator.

`src/` is the library, verified with Verus. It holds the decisions, free of
sockets, threads and clocks:

- `headless`: the server. Who may attach to a terminal, who is evicted by a
  takeover, who sizes a tab and who inherits it, which attach answers a
  terminal's queries. A request changes the server's state and appends effects,
  which the caller performs in order.
- `raw_stream`, `raw_tail`: the taps that carry a terminal's raw output, their
  budgets and gaps, and the unfinished sequence a snapshot has to replay.
- `stream`: the socket side. Splitting reads into request lines, routing
  requests, input on its way to a PTY, the life of a stream.
- `event_hub`: the bounded log that subscriptions poll.
- `control`: what the socket side and the server share about a connection.
- `cli`: the `herdr control` command.
- `schema`: requests, answers and records.
- `outside`: the few functions of other crates the library calls, with the
  contracts it relies on.

Contracts are stated over models: every type has a view, and `ServerModel`,
`RegistryModel` and `HubModel` say what each operation makes of a state. What
holds across operations is proved in `headless/laws.rs`, `headless/sharing.rs`,
`headless/ownership.rs`, `headless/preservation.rs`, `headless/lifecycle.rs`,
`headless/upkeep.rs`, `headless/answering.rs`, `raw_laws.rs` and beside the functions concerned.

`tests/` runs the library on concrete values. `app/` is ordinary Rust around it:
local sockets, threads, JSON, and the `Host` trait that stands for the program
with the terminals and tabs.
