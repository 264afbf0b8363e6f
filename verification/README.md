# scx_agentic

A market-based CPU scheduler. Processes hold tokens drawn from a fixed supply and
bid them for CPU time. The highest bidder wins each auction, what it pays returns
to a reserve, and no operation creates or destroys a token.

## Layout

`src/` is the library. Verus proves every function in it against its contract.

| Module         | What it holds                                                     |
|----------------|-------------------------------------------------------------------|
| `task`         | tasks as the kernel side queues them                              |
| `class`        | process classes and what they grant                               |
| `ledger`       | treasuries, and sums and walks over them                          |
| `bank`         | the token accounts and the conservation of the supply             |
| `order_book`   | pending bids and the auction                                      |
| `dispatch`     | the record of a task that is to run                               |
| `agent`        | controller settings and the tuning phase of bidding agents        |
| `breaker`      | the circuit breaker                                               |
| `central_bank` | telemetry snapshots and the fallback policy                       |
| `proc_stat`    | CPU times from the lines of `/proc/stat`                          |
| `telemetry`    | market and shadow utilization                                     |
| `transfers`    | the limit on transfers between processes                          |
| `window`       | counting what happened within a span of time                      |
| `wire`         | the byte layout of the records shared with the kernel side        |
| `cycle`        | the order of work in a scheduling cycle                           |
| `scheduler`    | all of these together                                             |
| `text`         | comparing strings, reading and writing decimal numbers            |

`tests/` runs the library on concrete values.

`app/` is the program around it: the connection to the kernel half through libbpf,
the scheduling loop, the central bank thread, and what is computed in floating
point (bids, the context-switch rate, the demurrage rate). It is built together with
the kernel half, whose compilation leaves a generated skeleton in the build
directory.

## What is proved

The balances of all processes and the reserve add up to the token supply in every
state (`bank::law_supply_is_conserved`). The functions whose names begin with `law_`
state the other properties that hold of the library as a whole, such as the order in
which bids win, that a failed dispatch restores every account, that a parent stays
within its limit of transfers, and that the generation counter of a queued task reaches
its dispatch record unchanged.
