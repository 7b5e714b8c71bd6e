# rustpipe

A CI/CD pipeline engine: pipelines are written in YAML or in a small line-based
DSL, validated, scheduled into waves of stages that can run in parallel, and run
in the shell or in Docker containers. A server takes GitHub push webhooks,
answers a small REST API with role-based access, and streams run logs.

The decisions of the engine are verified with Verus:

- `src/pipeline/` — the model, validation (first rule broken, with its field and
  message), the `.rustpipe` DSL parser (a function on text with an exact grammar
  in its contract), and DAG scheduling into execution waves over a `petgraph` graph.
- `src/runner/` — matrix expansion, the shell runner's state machine (which step
  runs, retries with doubling backoff, skipping unchanged stages, when a stage
  passes or fails), and the values a container stage is created with.
- `src/secrets.rs`, `src/cache.rs` — secret masking and hard-coded secret
  detection; SHA-256 cache keys.
- `src/server/` — HMAC-SHA256 webhook signatures, push handling, a sliding-window
  rate limiter (at most 100 passed requests in any second), roles, commit
  statuses and log-stream messages.
- `src/agent/registry.rs` — the runner registry, dispatching jobs round robin
  among the runners that carry the needed label.
- `src/strmap.rs`, `src/text.rs` — an insertion-ordered string map and the text
  operations the rest relies on, each with its contract.

`app/` is the program around the library: the command line, file and database
I/O, process spawning, Docker, HTTP and TLS. `tests/` runs the library on
concrete inputs.
