# nodelite

The checks and decisions of the NodeLite monitoring server and agent, as a
Verus library whose functions carry contracts that Verus proves.

- `src/text.rs`: character classes, `trim`, string order and number
  formatting, stated over `Seq<char>`.
- `src/validation.rs`: non-empty fields, identifiers, tag lists, and the
  normal form of a list of strings, with its laws.
- `src/config.rs`: URL, SHA-256 and TOTP-secret checks; calls into `url` and
  `base32` stand behind small trusted wrappers.
- `src/registry.rs`: the registry file checks, the registry state with its
  lookups, and the names of the lock and temporary files.
- `src/collector.rs`: CPU and network deltas between two samples.
- `src/ws.rs`: the WebSocket session decisions and the bookkeeping of
  outstanding pings.
- `app/`: plain Rust around the library: floating-point figures, and the
  registry file on disk with its lock.
