# chip8

A CHIP-8 virtual machine. The machine itself is a verified Verus library;
the terminal front end that runs it is ordinary Rust.

- `src/machine.rs` — the mathematical model: the machine state, the decoding
  of opcodes into instructions, and what each instruction does.
- `src/cpu.rs` — the executable machine (`Chip8CPU`), each operation proved
  against the model.
- `src/screen.rs`, `src/bits.rs` — facts about pixels and bits used by the proofs.
- `src/laws.rs` — properties that span instructions (drawing twice erases,
  a call and a return come back, stored registers load back, ...).
- `src/input.rs`, `src/sound.rs`, `src/frame.rs` — the keyboard mapping, when
  the beeper plays, and the frame pacing.
- `app/` — the program: file reading, terminal drawing, keyboard polling and
  audio.
