# plato_runtime_kernel

The spatial layer of the PLATO ecosystem: rooms as cells of a tensor grid,
batons that carry an agent's state from room to room, Markdown
specifications whose bullets are assertions checked against a room's
output, line deltas for syncing room state, and three-way merges for
concurrent edits.

The library in `src/` is written in Verus; each function carries a contract
over a mathematical model of its inputs, and the laws of the library
(merge symmetry, what a merge keeps when only one side changed, that
applying a delta to its base gives back the current text, what a baton's
data map gives back) are proof
functions beside the code they speak of.

- `text`, `text_map` — character-level text operations and a text-keyed map
- `assertions`, `tutor` — assertion extraction, payload validation, the tutor loop
- `room`, `baton`, `grid` — rooms and their topology, batons, the grid bridge
- `delta`, `merge` — line deltas and three-way merges
- `wire` — wire-protocol commands and the room contract of a welcome message

`app/` holds what stays outside the library: the serde forms of the types
and their JSON reading and writing, the floating-point clock and tick
messages, and a directory-tree adapter.
