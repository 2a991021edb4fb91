# brp

Peer-to-peer screen sharing: a participant creates or joins a room, shares monitors or windows
with presets, watches other members' lives in a tile grid or in pop-out windows, and shares the
audio of the applications it chooses.

## Layout

- `src/` is the verified library. Every decision the program makes that does not need the
  network, the GPU, the audio devices or the file system is here, with its contract proved by
  Verus: the settings file's rules and recent rooms, the identity key file's text, the start screen, ticket links, the window
  and pop-out bookkeeping, repaint and wake-up planning, presets and the panels' rows, the rate
  meters, the update state, the `brp://` handler entries, and the audio backends' decisions
  (which PipeWire nodes and ports to link, which Windows sessions and process trees to capture,
  which loopback clients to stop or start, and how many samples each captured source keeps,
  drops and gives to a mixed packet).
- `tests/` runs the library on concrete values.
- `app/` is the program around it: the command line, logging, the settings and identity files,
  the winit window with its egui panels and wgpu renderers, and the PipeWire, WASAPI and cpal
  audio I/O. It hands the library plain values and performs what the library decides.

Run Verus on `src/lib.rs` to check the proofs; `cargo test` runs the tests.
