# workload

Deterministic workload generation, fault scheduling and consistency checks for a
replicated message-streaming cluster, verified with Verus.

A run is a function of its seed. The library decides which command goes to which
replica, when a request is sent again, which replica crashes or restarts, and
whether what the cluster then shows is acceptable. It never touches a cluster: a
driver reads one into plain values, performs what the library decides, and reports
back what happened.

- `action`, `weights`, `options`: the commands, how often each is drawn, the knobs
- `rng`: the seeded generator, on top of `rand` and `rand_xoshiro`
- `retry`, `workload`, `shadow`: outstanding requests, resends, replies
- `faults`, `network`: crashes and restarts, network fault profiles
- `cluster`: plain readings of a cluster
- `state_checker`, `invariants`: checks of every tick
- `names`, `listing`, `oracle`, `report`: checks of a drained cluster
- `driver`: the run loop, the drain and the wait for a stable view, as decisions
- `fuzz`, `text`: what a fuzzing session sets up and prints

The calls into the generator crates in `rng`, and how `listing` quotes a string, are
trusted; everything else is proved.
Contracts are stated over the spec functions next to the code, and the properties
that span several functions stand as public proof functions.

`app/` holds the command line and the loops around a simulator that the embedding
harness supplies.
