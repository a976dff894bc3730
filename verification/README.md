# rollback_rs

A deterministic rollback netcode library for real-time multiplayer games, with its
engine verified in Verus.

Each peer predicts missing inputs with each player's last known input (its input in the
previous frame, pending or confirmed; the default input before the first frame) and
simulates speculatively. When a real input arrives that contradicts a prediction, the
engine restores the snapshot of that frame and re-simulates up to the current frame.
Frames are confirmed once all their inputs are real, or forcibly once they have waited
longer than `max_input_delay` frames.

## Layout

- `src/` — the verified library
  - `state.rs`: the `RollbackState` trait that game states implement, and `run`, the
    state reached through a sequence of frames
  - `sync.rs`: `RollbackSession`, its mathematical model `SessionModel`, and the
    contracts of every operation over that model
  - `laws.rs`: properties that span operations (consistency of states and inputs,
    rollback equals fresh simulation, interleaved versus batch delivery, bounds, batch
    versus single delivery, input delay across calls)
  - `codec.rs`: the bincode encoding of states and inputs
  - `error.rs`: `RollbackError`
  - `network/`: packets, per-peer bookkeeping (`PeerState`, whose sent inputs are kept for
    consecutive frames) and the decisions of a networked session (`NetworkSync`: stall
    detection, stepping a frame, sending inputs with redundancy, packet handling)
- `app/` — the I/O around the library: UDP transport over tokio, bincode encoding of
  packets, round-trip time measurement (floating point), and the asynchronous
  `NetworkSession` that drives `NetworkSync`
- `tests/` — tests of the library

## What is trusted

- Implementations of `RollbackState`: `advance` must produce `stepped`, `save` and
  `copy_input` must return equal copies, and `same_input` must decide equality of values;
  an implementation outside Verus is not checked against these contracts.
- The default `checksum` (bincode encoding hashed with ahash under fixed keys, so that
  peers running the same build agree): nothing is claimed of its value, since ahash
  documents no fixed output across machines or versions.
- bincode's encoding and decoding of inputs: nothing is claimed of the bytes or of the
  decoded value; the contracts speak of whatever the calls returned.
