# vhost-user-blk conformance

Conformance scenarios for **vhost-user-blk backends**. The program plays a correct
frontend on top of the `vhost` crate and talks to the socket of the backend directly,
without a virtual machine. A scenario is either a valid request in an unusual layout, or
bad input that the backend has to survive.

> The scenarios are **destructive**: they write from sector 2048 on, and to the last
> sector. Run them against a scratch disk only.

## How it is built

`src/` is a library that is proved with Verus. It decides what to send and what to store,
and it judges what comes back; it touches neither socket nor memory. Five small functions
are trusted, not proved: three that ask the `vhost` crate about protocol features
(`src/features.rs`), and two that ask the standard library for lower case and white space
(`src/words.rs`). What is claimed of each stands in its contract.
A scenario runs over the answers gathered so far, writes down its actions, and stops
where an answer is missing. `app/` performs the actions, adds the answer, and runs the
scenario again. That a rerun repeats its earlier actions is proved in `src/replay.rs`, and
that answers and questions match one to one in `src/turns.rs`.

Each scenario `t_x` has a function `x` beside it that lists its steps. What a step does is
said in `src/bench.rs`, and what a session does in `src/model.rs`; the code is proved to do
exactly that.

| Place | What is there |
|---|---|
| `link`, `mem` | the conversation with the outside, the shared memory in it |
| `features`, `dev`, `ring`, `blk` | sessions, the ring, requests |
| `bench`, `trial`, `stages`, `checks` | the steps of scenarios |
| `t_data`, `t_precision`, `t_proto`, `t_robust`, `registry` | the scenarios |
| `words`, `cli`, `report` | command line and report |
| `replay`, `turns`, `verdicts`, `guest`, `wire`, `laws`, `audit`, `bounds`, `spared`, `orders` | what holds of all of it |
| `app/` | sockets, events, mapped memory, `main` |
| `tests/` | the library against a device in memory, good and bad |

## Running

```
vhost-blk-conformance <socket> [filter] [-s|--skip a,b,c] [-d|--delay ms] [-o|--only f]
vhost-blk-conformance list
```

A flag comes before a positional argument, and that before the environment
(`VHOST_SOCK`, `VHOST_SKIP`, `VHOST_TEST_DELAY_MS`). The delay applies between scenarios
and before every later session within one. The exit code is 0 if nothing failed, 1 if
something did, and 2 for a wrong command line.
