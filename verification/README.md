# arctern

The decision-making core of arctern, a push-only ZFS replication daemon
(snapshot, replicate to peers over SSH, prune with zrepl-style retention
grids), written in Verus: its functions carry `requires`/`ensures`
contracts and are proved against them; calls into outside crates go
through small trusted wrappers whose contracts are stated, not proved.

## Layout

- `src/` — the verified library.
  - `names`, `text`: ZFS name rules and the string helpers the proofs
    build on.
  - `grid`, `retention`, `prune`, `pattern`: the retention grammar, the
    grid algorithm (bucketing by age, keeping the oldest per bucket) and
    the combination of keep rules.
  - `schema`, `filter`, `defaults`, `config`, `bandwidth`: the
    configuration model, filesystem filters, `[defaults]` resolution and
    validation.
  - `plan`, `send_args`, `protocol`, `step`, `holds`, `inventory`: the push
    planner (GUID intersection, resume tokens, bookmark fallback), the
    `zfs send` arguments and wire header, and the hold/cursor bookkeeping
    of one replication step.
  - `schedule`, `peer`, `jobs`: which targets a cycle replicates to, when
    the scheduler wakes, the reconnect backoff and route health, job
    status and error texts.
  - `api`, `requests`, `http_error`, `auth`, `token`, `sse`: the HTTP
    API's wire types, request checks, error mapping, access guards, the
    administrator token and session table, and reading server-sent
    event payloads.
  - `paths`, `shutdown`: where the daemon keeps its state and binds its
    socket, and the stages of an orderly shutdown.
- `tests/` — the tests, run against the compiled library.
- `app/` — the `arctern configcheck <path>` command: reads the TOML file
  into serde shapes, converts them to the library's types, then resolves
  defaults and validates with the library.

Laws of the library (retention partitions and per-bucket bounds, the
keep-rule intersection, protection of unprefixed snapshots, parents
before children, backoff monotonicity, session lifetime, wire-word round
trips, frame length round trip, holds listed oldest first, the
planner's newest-common-snapshot rules, `[defaults.send]` as the
host-wide send default, filter deduplication, the reconnect round) are public
proof functions next to the code they speak of.
