# irtt_client

The decisions of a client for isochronous round-trip testing, written in Verus:
executable Rust whose behaviour is stated in contracts and proved.

- `src/` holds the verified library. It keeps track of probes, paces targets,
  opens, drains and closes their sessions, records outcomes and hands events to
  subscribers. Sockets, clocks and channels are not part of it: its functions
  take what was observed and give back what is to be done.
- `tests/` exercises the library from outside.
- `app/` is ordinary Rust around the library: threads, futures, sockets and
  conversions. The protocol sessions are supplied by the embedding program
  through the traits in `app/session.rs`.

## Modules

| Module | Subject |
| --- | --- |
| `timing`, `net`, `text`, `messages` | times, addresses and how they are written |
| `probe` | probes in flight, timed out and completed |
| `metadata`, `receive`, `error_queue` | what the kernel reports about datagrams |
| `hub` | bounded event queues of subscribers |
| `runner` | one session, run from open to close |
| `driver` | control barriers, stopping and sealing of a driver |
| `task` | many targets, each on a socket of its own |
| `group` | many targets on one shared socket |
| `model`, `history`, `config`, `error`, `event` | data shared by the above |

Each law of the library is a public proof function whose name starts with
`law_`.
