# CrossBag

CrossBag keeps directories of two machines in step over an Easytier virtual
network. Nodes tell each other what files they have, compare, and fetch what is
newer on the other side. Two nodes get to know each other by a pairing code that
one shows and the other types.

The library under `src/` is written in Verus: each function states what it does
in `requires` and `ensures`, and the properties that span functions stand as
public proof functions beside them.

| Modules | What they hold |
| --- | --- |
| `text`, `numbers`, `ipv4`, `base32`, `table` | texts, numbers, addresses, codes, maps |
| `digest`, `identity`, `clock` | BLAKE3 digests, identifiers, points in time |
| `protocol`, `wire`, `codec`, `frame` | messages, their bytes, and frames |
| `config`, `scan`, `state`, `sync` | settings, walks, what is remembered, differences |
| `watcher`, `daemon`, `network` | changes of files, what a node does, connections |
| `pairing`, `meeting`, `addresses` | pairing codes, how two nodes meet, where they are |
| `easytier`, `service`, `cli`, `report` | the network's process, the service, commands |

What reads and writes files, sockets and processes is ordinary Rust under `app/`.
It performs what the library decides and tells the library what happened.

What is believed rather than proved are the calls into the crates `bincode`,
`blake3`, `chrono`, `getrandom`, `glob`, `hostname` and `uuid`, and a few of the
standard library's. Each stands in a small function with a contract of its own
and a comment that says what is claimed.
