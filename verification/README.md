# herdr_attention

The attention queue of the herdr terminal multiplexer, with its contracts proved by Verus.

Agents that block, or finish while nobody watches, queue their pane for attention on the
host. Clients lease a view of a queued pane, at a size of their own, without moving it or
changing the host's layout, and show it in a floating widget that routes their input to it.

- `src/dock.rs`, `src/rebuild.rs`, `src/handoff.rs`: the host's queue, its debounce, its
  dismissals, and how it is rebuilt or carried over when the host process is replaced.
- `src/lease.rs`: per-client view leases, the attention requests and what they answer.
- `src/shell.rs`, `src/frame.rs`: the client widget: its state machine, layout, input
  routing and the blit of a leased surface into the client's frame.
- `src/remote.rs`: the decisions of the remote stdio bridge.
- `src/laws.rs`: properties that relate several operations.
- `src/topology.rs`, `src/pane_ids.rs`, `src/lex.rs`, `src/seqs.rs`: workspaces, public pane
  identifiers, string order and sequence facts.
- `app/`: terminal events, drawing, JSON responses, sockets and the byte-copying bridge.

`app/` is the glue a host or client program links: `main` runs the remote bridge, and the
other modules convert terminal events, draw the widget, answer attention requests and
stream leased surfaces through a host's runtimes. `serde` appears only because `app/wire.rs`
derives its serialization on copies of the library's surface and frame types (a library type
cannot carry an outside derive); it holds none of the attention logic.
