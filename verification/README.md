# mls_playground

A benchmark for group messaging with MLS. A runner drives many workers over HTTP: it lets a group
grow and shrink from plateau to plateau and has its members update their keys and send messages on
each of them. The workers measure what they do, and the measurements end up in one table.

`src/` is the verified library. It decides everything that a run does and performs nothing of it:

- `staircase` is a whole run. It goes through the phases `transition`, `converge`, `rejoin`,
  `density`, `update` and `application`, which are built from `add`, `remove`, `cycle` and `evict`.
  Each of them is a state machine that asks for one `task::Order` at a time and is told what became
  of it by a `task::Report`.
- `plateau`, `batch`, `plan`, `roles`, `sampling`, `units` and `draw` make the choices of a run.
- `command`, `transport`, `expect`, `fanout`, `packed`, `failure` and `record` deal with single
  requests: what is sent, when it is sent again, what an answer means, what is written down.
- `client` and `mls` are a member of a group; `relay` hands application messages on; `worker` and
  `heap_budget` are a worker process; `health` waits for services and workers; `aggregate` makes the table.
- `flags`, `config`, `workers`, `table`, `order`, `lcg` and `text` are what the others stand on.

Calls into other crates stand behind functions whose contracts are taken on trust: in `mls` for the
MLS implementation, in `draw` for random numbers, and in single places of `relay`, `transport`,
`expect` and `text`. What relates several functions is stated by the proof functions named `law_*`.

`app/` is the program around the library: `benchmark`, `aggregate` and `worker`.
