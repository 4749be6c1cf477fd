# rustray

The core of a small distributed task-execution framework, written in Verus:
each function states its behaviour in `requires` / `ensures` and Verus
proves it.

## Layout

- `src/` — the verified library.
  - `scheduler/` — priority queues ordered by deadline, the load balancer
    (round robin, least loaded, data-aware hand-off), the task dependency graph.
  - `head/` — the head node: worker registry, heartbeat expiry, cluster
    counts, task submission and scheduling rounds.
  - `worker/` — the worker's link to the head node (backoff and reconnection
    steps) and its network and storage totals.
  - `security/` — security policy, password rules, IP and path whitelists;
    `auth` holds users, sessions, tokens and the audit trail.
  - `common/` — shared records; `object_store` keeps MVCC versions and
    transactions.
  - `connection.rs` — QoS matching, subscription routing, topic history.
  - `task/` — task status and results; subscriber registry for task events.
  - `cache.rs`, `metrics.rs`, `system.rs`, `grpc.rs`, `api/`, `error.rs`,
    `models.rs`, `text.rs` — the two-level cache, counters, timers and traces,
    network status, request validation, task actions, errors, and text helpers.
- `tests/` — tests that run the compiled library.
- `app/` — the server around the library: HTTP handlers, database access,
  background loops, system readings, and the floating-point computations.

Laws that relate several calls are public proof functions named `law_*`
(and a few `lemma_*`) next to the code they speak of.

The balancer, the task graph, the router and the authentication manager each
keep their own named counters (readable through `metrics()`), and their
contracts say which operation moves which counter.
