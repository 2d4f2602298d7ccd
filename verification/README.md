# strunk

Durable background jobs and state events that live in the tables of a PostgreSQL database, written
in Verus. Work is enqueued and state is published in the same transaction as the business data.

## Layout

- `src/` is the verified library. `store` holds the tables, the database's clock and transactions;
  every operation on them states exactly what it makes of the tables and what it hands back.
  - `task_queue`, `worker`, `retry`: submitting, claiming, completing and failing tasks, and the steps
    of a worker.
  - `relay`, `relay_loop`, `cycle`: handing events over, and the steps of the background jobs.
  - `change_feed`, `subscriber`, `schema`: publishing states, following them, and the schema registry.
  - `scheduler`, `cron`: recurring tasks and their expressions.
  - `reaper`, `stats`, `health`, `admin`, `report`: housekeeping and what an operator sees.
  - `outbox`, `ranking`, `like`, `dict`, `json`, `text`, `number`, `time`: what the rest is made of.
  - `guarantees`, `feed`: what the library promises as a whole, as proof functions: no task is lost,
    none is delivered twice within its visibility timeout, no event is skipped in whatever order
    transactions commit, a snapshot is the state that was published last, a schedule fires once a
    minute at most.
- `app/` is the service on PostgreSQL and its command line. It runs the statements that `store`
  describes, keeps connections, listeners and timers, and asks the library for every decision: the
  next step of a worker, a subscriber or the relay, the delay before a retry, the next firing of a schedule.
- `tests/` runs the library.

## What is taken on trust

Calls into `chrono` (intervals, adding them to a point in time, the clock, writing a time down) and
`rand` (a random word). They stand in `src/time.rs` and `src/retry.rs`, each with a contract and a
comment that says what is claimed of it.
