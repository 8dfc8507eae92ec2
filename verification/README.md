# predict_agent

Decision logic of an agent that plays a prediction market: reading a language
model's answer, answering the server's challenge, the strategy rules, the
prompt, and the steps of a round, of the background loop, of the check before
it, and of the stake report.

- `src/` is the library. Every function carries a contract; Verus proves all of
  them but those of the few functions that wrap outside code, named below.
  `iteration`, `loop_worker`, `preflight` and `stake` are machines: they return
  a state and an action, and take what came of the action as an event.
- `app/` performs the actions: HTTP, processes, files, the environment, the
  clock, and the floating-point operations that the library takes as bits.
- `tests/` runs the library with its outside crates linked.

The contracts that are stated and not proved belong to functions that call
`serde_json` in `json`, `chrono` in `market`, `sha2` and `hex` in `submission`,
and three functions of the standard library in `text`.
