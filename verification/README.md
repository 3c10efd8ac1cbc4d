# Norupo

A self-hosted tunnel: public hostnames lead to services on machines that cannot be
reached from outside. An agent next to the service dials an edge node and keeps one
long-lived stream open, over which every public request travels as a numbered
stream of frames with its own flow-control window.

The decisions are made in a library that is verified with
[Verus](https://github.com/verus-lang/verus); sockets, timers and wire formats
stand around it.

| Where | What |
|-------|------|
| `src/routing.rs`, `src/address.rs`, `src/registry.rs` | Routing keys, and the table that says who owns them |
| `src/auth.rs`, `src/server/tokens.rs` | Tokens, accounts and what they may claim |
| `src/proto.rs` | The frames between edge and agent |
| `src/server/session.rs` | Sessions, streams and their windows on the edge |
| `src/server/control.rs` | What an agent's frames do |
| `src/server/ingress.rs`, `src/server/peer.rs` | Where a public request goes |
| `src/server/web.rs`, `src/fields.rs` | Headers and error pages |
| `src/client/` | The agent: reconnects, streams, requests to the local service |
| `src/text.rs`, `src/ids.rs`, `src/payload.rs`, `src/server/tables.rs` | Text, ids, bytes and tables |
| `app/` | The two programs: `norupo-server` and `norupo` |
| `tests/` | Tests of the library, from single functions to a whole tunnel |

Each function states what it returns and changes. What holds of the library as a
whole is stated in public proof functions beside the functions they speak of: that
of two sessions exactly one wins a key, that every form of a host leads to the same
tunnel, that no more bytes leave than a window allows, that a request crosses at
most one hop.

What is taken on trust is marked where it stands: the wrappers in `src/fields.rs`,
`src/payload.rs`, `src/server/tables.rs`, `src/ids.rs`, `src/text.rs` and
`src/registry.rs` say which function of which crate they call and what they claim
of it.
