# chip8

A CHIP-8 interpreter whose machine is verified with Verus.

- `src/machine.rs`: the abstract machine state and the meaning of every
  instruction (`step`), as spec functions.
- `src/chip8.rs`: the executable machine (`Chip8System`, `Interpreter`),
  each operation proved against `machine.rs`.
- `src/keypad.rs`: the keyboard layout of the 16-key keypad.
- `src/window.rs`: the window settings.
- `src/laws.rs`: properties proved of the instruction set (sprites are
  XOR-ed, calls return, unknown opcodes are skipped, ...).
- `app/`: the command line, SDL window, keyboard and main loop.

Usage: `chip8 <FILE> [width] [height] [fullscreen]`; keys `1234`, `QWER`,
`ASDF`, `ZXCV` are the keypad, Escape quits.
