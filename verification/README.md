# memsanity

Sanity and functional checks for in-memory key-value stores (memcached first).
A YAML suite names targets and scenarios; each scenario runs steps
(`set`, `get`, `mget`, `delete`, `sleep`) on a schedule (once, a number of
iterations, or for a duration, with some concurrency) and judges the answers
against expectations (value, hit or miss, latency bound).

## Layout

- `src/` — the library, with its specifications and proofs:
  - `config.rs`: the suite model.
  - `text.rs`: character-level helpers with their specifications (decimal
    numbers as `str::parse` reads them, whitespace splitting and trimming,
    prefixes and suffixes).
  - `duration.rs`: duration texts such as `250ms` or `3s`.
  - `client.rs`: what a client is bound to.
  - `drivers/memcached.rs`: the memcached text protocol — the commands, the
    reading of replies, and the law that a stored value reads back.
  - `drivers/noop.rs`: a driver that talks to nothing.
  - `engine.rs`: the dry-run plan, operation ids, schedules, hooks, the choice
    of client, and the outcome of a scenario (its first failing pass) and of a
    suite (its first failing scenario, after which it stops).
  - `steps.rs`: what each step asks of the client and how its answer is judged.
- `app/` — the program around it: command line, logging, reading suite files,
  sockets, timers and worker tasks.
- `tests/` — tests of the library.

Run a suite with `memsanity run suite.yaml`; `--dry-run` prints the plan only.
