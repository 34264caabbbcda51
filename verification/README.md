# nacos_naming_listener

The listener side of a Nacos naming client. It tracks services, keeps the
instances that the server reports for them, decides when a service is asked
about again, answers questions about instances and tells listeners which
instances came and which went.

- `src/` is the library, verified with Verus. It holds the state and its steps:
  `naming` is the listener itself, `state` its state and steps as mathematical
  values, `laws` what holds over the steps, `history` what a listener is told
  over many of them. `diff` compares lists of instances, `query` selects them,
  `push` reads pushed messages and writes their acknowledgement, `listener` is
  who gets told. `timeouts` keeps the heartbeats in the timeout set of
  `inner_mem_cache`.
- `app/` runs the library as an `actix` actor: messages, requests to the server,
  the clock and the timer. Which instance is picked by weight, and how data is
  unpacked, is up to functions that it is handed.
- `tests/` runs the library.

What is taken on trust of outside crates stands in `timeouts` and `push`: the
timeout set of `inner_mem_cache`, and reading and writing maps of texts with
`serde_json`.
