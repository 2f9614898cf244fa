# kuadrat_deploy

The deploy engine of kuadrat, written and proved in Verus. It takes an app from
a repository to a running service through Detect, Build, Secrets, Apply, Route
and Healthcheck, undoes what a failed stage left behind, and recovers from a
crash at any point.

The engine performs no work itself. A deploy is a machine that hands out one
request at a time, to the store, to the codec of specs or to the host, and takes
the reply to it. So every decision is a verified function from a state and a
reply to the next state, and everything that waits, writes or runs a command is
outside.

## Layout

| Path | What |
|---|---|
| `src/model.rs` | stages, rows, events, outcomes |
| `src/spec.rs` | the workload spec, its slug, and what makes it deployable |
| `src/text.rs` | chains of error messages, and small texts |
| `src/protocol.rs` | the requests and the replies that fit them |
| `src/reservation.rs` | a row and the lock of the app, before anything runs |
| `src/deployment.rs` | one deploy, from the reserved row to its end |
| `src/unwind.rs` | what undoes a stage |
| `src/reconciliation.rs` | recovering from a crash |
| `src/store.rs` | what every request to the store means, and a ledger in memory |
| `src/ctx.rs`, `src/run.rs` | whole deploys and recoveries against a ledger and given replies |
| `src/cli.rs` | what the command line decides around a deploy |
| `src/laws/` | what holds of whole deploys, reservations and recoveries |
| `app/` | the command line program: arguments, the store on disk, the host |
| `tests/` | deploys, recoveries, crashes and faults on concrete values |

## What is proved

Of every deploy, after any number of requests, whatever the replies and wherever
a request to the store fails:

- the row is in progress at the stage that runs and the lock is held, until the
  end is stored; from then on the row carries the outcome and the lock is free;
- a deploy that is given up, because its spec is refused or because the store or
  the codec failed, gives the lock back and leaves its row in progress for a
  recovery, unless its end was stored already; only where giving back the lock
  itself fails does it stay held;
- events are stored before they are published, under the same ids;
- the timeline is the stages in order, and the end last, with the cause;
- the host was changed as the stages ask, and undone in reverse from the stage
  that failed: `RolledBack` where that worked, `Failed` where it did not;
- the spec is stored only when the deploy is done, with the image that was
  built;
- nothing of another app is touched, and one app has one deploy at a time.

Of every recovery that succeeds: each deploy that was in progress has ended, no
lock is left, and recovering again changes nothing.

All of this is proved of the ledger in `src/store.rs`, where a request either is
answered as `StoreView::answer` says or fails and writes nothing. It carries over
to the store on disk as far as that store answers so too; the program in `app/`
is not proved.

Besides, one thing is taken on trust: that `String::push` of the standard library
appends a character.
