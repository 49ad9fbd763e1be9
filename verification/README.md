# breez_sdk_bindings

The logging core of the Breez SDK bindings, verified with Verus.

- `src/text.rs` — decimal rendering of integers and booleans, and reading a `u32` back.
- `src/text_map.rs` — `TextMap`, a map keyed by text in which no key occurs twice;
  `FieldMap` records the fields of log events and spans.
- `src/records.rs` — log levels, the entries and messages handed to loggers, and how
  they are made from an event's fields; which records the log stream takes.
- `src/routing.rs` — the registry of per-node loggers (keyed by the hex encoding of
  the node's seed) and the decision of which logger an event goes to.
- `src/log_stream.rs` — `LogStreamGate`, which admits one log stream only, and the `NOOO` sink.
- `app/` — what stands around the library: the node services, the async executor, the process-wide state, and the `log` and `tracing` adapters.
