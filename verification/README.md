# chip8_core

A CHIP-8 virtual machine whose fetch/decode/execute core is verified with
Verus.

- `src/model.rs` — the abstract machine (`Machine`) and the effect of every
  instruction, reset, ROM loading, the keypad and the timers on it.
- `src/machine.rs`, `src/instructions.rs`, `src/draw.rs` — the executable
  `Chip8`; each operation's contract equates its result with the model.
- `src/laws.rs` — properties across operations: preserved invariants,
  CALL/RET, XOR drawing, flags, BCD, register store/load, timers,
  deterministic runs, and `reset` returning to a fresh machine.
- `src/error.rs` — `Chip8Error` and its message text.
- `src/frontend.rs`, `src/snapshot.rs` — the keyboard layout, the command
  each keyboard event stands for, the desktop session (pause, restart,
  frames and the beeper), the luminance texture and the framegrab picture.
- `app/` — the SDL2 desktop frontend (with a headless `framegrab` mode that
  writes a PNG) and the WebGL browser frontend, whose wasm-bindgen exports
  are generated when building for wasm32. `app/` is a single binary, so
  framegrab is a subcommand of it.
