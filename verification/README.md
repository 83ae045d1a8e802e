# Skein

A compiler and runtime for distributed LLM inference: it places a model on a cluster,
compiles it per device, checks the result against a reference, and serves it.

## Layout

| Where | What |
|---|---|
| `src/` | the verified library: data structures, rules, parsers and state machines, with their contracts |
| `src/ir/` | the model graph, plans and their identity, clusters, workload traces, the Mixtral importer |
| `src/parity/` | the comparison of an artifact with its reference, tolerances, recorded drift |
| `src/runtime/batcher/` | admission, queueing, chunked prefill, the requests in flight |
| `src/runtime/distributed/` | ranks, their segments, schedules, capture, pipelined and continuous decode |
| `src/runtime/` | collectives, hot swaps, drift monitoring, graph bookkeeping |
| `app/` | files, processes, threads, devices and floating-point arithmetic around the library |
| `tests/` | tests of the library |

## Numbers

The library compares, carries and stores floating-point numbers as bit patterns and never
computes with them. Where a result needs arithmetic, the caller passes it in as a function,
and the contract says what that function is applied to.

## Traits

`HFReference`, `SkeinForward`, `LocalSegments` and `RankCollective` are implemented outside
the library. Their relations (what a call may do) are left open, so what is proved of the
functions that use them holds for every implementation.
