# sysx

The decision logic of a deterministic cgroup supervisor, with machine-checked contracts, and
the programs around it.

`src/` is the library. Nothing in it touches a file, a socket or a process: it takes what was
read, and gives back what is to be done.

| Module | What it decides |
|--------|-----------------|
| `dag` | the boot order, which services are severed, how deep a chain may be |
| `orchestration` | which services fail with which |
| `recovery` | the restart budget and the backoff |
| `reactor` | what follows a request, news from a service, a timer |
| `control_plane` | who may connect, and when a request is complete |
| `ipc`, `wire` | frames, commands and replies, over the buffers of `bytes` |
| `stop_ladder`, `sweep` | how a service is stopped and its directories removed |
| `cgroup_ops`, `service_spawn`, `terminal_broadcast` | slots, limits, the way down |
| `runtime` | paths in the cgroup tree, and what the kernel reports there |
| `schema`, `schema_load` | which service definitions are valid |
| `core_bin`, `boot` | the sealed boot artifact |
| `cli` | the operator's command line |
| `names`, `text` | sets and maps of names, characters and numbers |

Functions are stated over mathematical models: a graph is a map from names to lists of names, a
supervisor is sets and maps of names, a frame is a sequence of bytes. What holds across
functions stands as public proof functions whose documentation starts with "Law".

What is taken on trust is marked `external_body`, `external_type_specification` or
`assume_specification`, and says so: the buffers of `bytes`, the parser of `serde_yaml` with its
error, and four functions of the standard library.

`app/` holds the programs. The name under which the binary is called picks one: `sysxd` (the
supervisor), `sysxc` (the compiler), `sysx` (the client), `sysx-reaper`.
