# rocust

The verified core of a load-testing library in the style of Locust: simulated
users run weighted tasks against a system and report every request; the test
aggregates the results per endpoint and per user, exports metrics, and writes
reports.

- `src/` is the library that Verus verifies: request statistics (`results`),
  per-user statistics (`user`), the decision taken on every event a user
  reports (`test_state`), the spawn schedule (`spawn_coordinator`), the handles
  given to users (`events`, `controller`), log level names (`logging`), the
  random task and sleep choices (`traits`) and small helpers (`utils`).
  Response and elapsed times are whole microseconds.
- `app/` is the runtime around it: configuration (command line, JSON, YAML,
  TOML), files, logging setup, Prometheus export, the HTTP server, the async
  test loop, user tasks and future combinators, and the presentation of
  averages and rates, which are floating-point values.
- `tests/` exercises the library on concrete values.
