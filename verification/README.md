# geerpc

A small RPC framework. Frames are a 4-byte big-endian length followed by a
bincode-encoded envelope (version, sequence number, service, method,
optional status, payload); a server routes each request to the handler
registered for its (service, method) and answers with the same sequence
number; a client numbers its calls from 1 and hands each response to the
call that waits for it. Typed stubs are generated from a YAML service
definition.

Layout:

- `src/` — the verified library: framing (`frame`), envelopes and statuses
  (`protocol`), the routing table and the per-frame decisions of a
  connection (`server`), address checking, sequence numbers and response
  matching (`client`), the naming plan of generated stubs (`codegen`), the
  ping service (`ping`), and benchmark helpers (`bench`).
- `app/` — sockets and tasks (tokio), bincode encoding of envelopes and
  payloads, the token output of the stub generator, and the benchmark
  harness.
- `tests/` — tests of the library.
