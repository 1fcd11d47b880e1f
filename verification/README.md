# redis_server

A small server that speaks the Redis protocol: strings with expiry, lists with blocking pops,
streams with blocking reads, transactions with watched keys, and replication of `SET` commands.

- `src/` is the library. It decides how bytes read as commands, what a command does to the data,
  what is answered, what replicas are sent, and what a replica makes of its master's
  bytes. It is verified with Verus, but for two calls into the standard library whose contracts
  are trusted: `std::str::from_utf8` (`bytes.rs`) and `std::time::SystemTime::elapsed`
  (`clock.rs`). `invariants.rs`, `history_laws.rs`, `transaction_laws.rs`, `data_laws.rs`,
  `reply_laws.rs` and `replication_laws.rs` state what holds across commands.
- `app/` is the program around it: sockets, tasks, signals between waiting clients, and
  time. The timeout of `BLPOP` is read there (`waiting.rs`), because it is a floating-point number.
- `tests/` runs the library.

Times are arguments of the library's functions: nanoseconds on a clock that never goes back for
expiry, and milliseconds since the Unix epoch for the IDs of stream entries. Only
`Session::handle_command` reads the wall clock itself.
