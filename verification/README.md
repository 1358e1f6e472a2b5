# doom_server

The game-state logic of a server that streams DOOM sessions into a block-game
world: session ids and the map items that show them, the keys a player holds,
the worker-side handling of server commands and tick bundles, networked parties,
the waiting queue, and the inventory and tagged-value operations these rest on.
Every function in `src/` is verified with Verus against its contract, except one
trusted wrapper: `random_index` in `src/registry.rs`, which asks `rand` for an index
below a length and whose contract states only what holds of every outcome.

- `src/protocol.rs`: messages between server and workers, frames.
- `src/nbt.rs`, `src/item.rs`, `src/inventory.rs`: tagged values, item stacks, inventories.
- `src/session.rs`, `src/registry.rs`, `src/directory.rs`: sessions, id allocation, ownership.
- `src/worker.rs`: the worker's state machine and engine-input conversions.
- `src/net.rs`, `src/queue.rs`: parties and their tick stream, the waiting queue.
- `src/controller.rs`, `src/util.rs`, `src/commands.rs`, `src/video.rs`, `src/lobby.rs`, `src/chat.rs`:
  player-facing decisions.
- `app/`: pipes, worker processes, the wire form of messages, and floating-point motion.
