# agent-bridle-core

The capability leash for agent tools, verified with Verus.

A tool acts through a `ToolContext`, and only a `Gate` makes one: with the meet
of what was granted and what the tool declares to need. The crate states what
that promises as contracts and proves them.

- `src/` is the library. Every function has a contract; the laws that relate
  several functions are public proof functions named `law_…`, beside what they
  speak of.
- `tests/` runs the library on concrete values.
- `app/` is ordinary Rust around the library: files, processes, sockets,
  threads, and the wire formats. It reports what happened to the library and
  performs what the library decides.

| Module | What it decides |
|---|---|
| `caveats`, `provenance` | the lattice of authority, and resolved authority within a bound |
| `gate`, `registry`, `step_up` | which calls are admitted, what they cost, which owe a human gesture |
| `context`, `canonical`, `paths` | which programs, hosts and paths a call may touch |
| `report`, `sandbox` | how strongly each axis is enforced, and how strongly it has to be |
| `admitted` | which fences are admitted, and what they are known by |
| `net_proxy` | which hosts a fenced child reaches through the egress proxy |
| `execution` | the bounded event stream of a managed execution, and its process tree |
| `rootfs` | what a minimal root tree holds |
| `policy`, `operator` | durable decisions of humans, and who may make them |
| `config`, `envelope`, `error` | configuration, results, refusals |

What the library takes from outside crates stands behind functions marked
`external_body`, each with the claim it makes of the outside function.
