use vstd::prelude::*;

verus! {

/// Bytes of addressable memory.
pub const MEMORY_SIZE: usize = 4096;
/// Width of the display in pixels.
pub const DISPLAY_WIDTH: usize = 64;
/// Height of the display in pixels.
pub const DISPLAY_HEIGHT: usize = 32;
/// Pixels of the display, stored row by row.
pub const DISPLAY_SIZE: usize = 2048;
/// Number of general purpose registers `V0` to `VF`.
pub const REGISTER_COUNT: usize = 16;
/// Where a program is loaded and where execution starts.
pub const START_ADDRESS: u16 = 0x200;
/// Where the built-in hexadecimal font is stored.
pub const FONT_START_ADDRESS: usize = 0x050;
/// The flag register `VF`.
pub const FLAG_REGISTER: usize = 0xF;
/// What the keypad decoder returns when no key of the keypad is held.
pub const NO_KEY: u8 = 0x10;

/// The abstract state of a CHIP-8 machine.
pub struct Chip8State {
    pub memory: Seq<u8>,
    pub display: Seq<bool>,
    pub i: u16,
    pub pc: u16,
    pub delay_timer: u8,
    pub sound_timer: u8,
    pub v: Seq<u8>,
    pub stack: Seq<u16>,
}

impl Chip8State {
    /// The fixed sizes of memory, display and register file.
    pub open spec fn wf(self) -> bool {
        &&& self.memory.len() == MEMORY_SIZE
        &&& self.display.len() == DISPLAY_SIZE
        &&& self.v.len() == REGISTER_COUNT
    }
}


/// A copy of `s` with register `r` set to `val`.
pub open spec fn set_v(s: Chip8State, r: int, val: u8) -> Chip8State {
    Chip8State { v: s.v.update(r, val), ..s }
}

/// The two bytes at `hi` and `lo` read as one big-endian opcode.
pub open spec fn opcode_of(hi: u8, lo: u8) -> u16 {
    (hi as int * 256 + lo as int) as u16
}

/// The top nibble of an opcode: which group of instructions it belongs to.
pub open spec fn op_family(op: u16) -> u16 {
    op / 0x1000
}

/// The low twelve bits of an opcode (`NNN`), an address.
pub open spec fn op_nnn(op: u16) -> u16 {
    op % 0x1000
}

/// The low byte of an opcode (`NN`).
pub open spec fn op_nn(op: u16) -> u8 {
    (op % 0x100) as u8
}

/// The low nibble of an opcode (`N`).
pub open spec fn op_n(op: u16) -> u8 {
    (op % 0x10) as u8
}

/// The register named by the second nibble of an opcode (`X`).
pub open spec fn op_x(op: u16) -> int {
    ((op / 0x100) % 0x10) as int
}

/// The register named by the third nibble of an opcode (`Y`).
pub open spec fn op_y(op: u16) -> int {
    ((op / 0x10) % 0x10) as int
}

/// The opcode at the program counter.
pub open spec fn fetch(s: Chip8State) -> u16 {
    opcode_of(s.memory[s.pc as int], s.memory[s.pc as int + 1])
}

/// The state with the program counter moved on by one instruction (two bytes).
pub open spec fn advance(s: Chip8State) -> Chip8State {
    Chip8State { pc: (s.pc + 2) as u16, ..s }
}

/// An opcode that the interpreter does not know; it is reported and otherwise ignored.
pub open spec fn is_unknown(op: u16) -> bool {
    let f = op_family(op);
    ||| f == 0x0 && op_nnn(op) != 0x0E0 && op_nnn(op) != 0x0EE
    ||| f == 0x8 && !(op_n(op) <= 0x7 || op_n(op) == 0xE)
    ||| f == 0xE
    ||| f == 0xF && !(op_nn(op) == 0x07 || op_nn(op) == 0x0A || op_nn(op) == 0x15
        || op_nn(op) == 0x18 || op_nn(op) == 0x1E || op_nn(op) == 0x29 || op_nn(op) == 0x33
        || op_nn(op) == 0x55 || op_nn(op) == 0x65)
}

// ---------------------------------------------------------------- sprites

/// Column at which a sprite positioned by register `xr` starts.
pub open spec fn sprite_x(s: Chip8State, xr: int) -> int {
    s.v[xr] as int % DISPLAY_WIDTH as int
}

/// Row at which a sprite positioned by register `yr` starts.
pub open spec fn sprite_y(s: Chip8State, yr: int) -> int {
    s.v[yr] as int % DISPLAY_HEIGHT as int
}

/// Columns of a sprite that fit on the display: sprites are clipped at the right edge.
pub open spec fn sprite_cols(s: Chip8State, xr: int) -> int {
    if 8 <= DISPLAY_WIDTH as int - sprite_x(s, xr) { 8 } else { DISPLAY_WIDTH as int - sprite_x(s, xr) }
}

/// Rows of an `n`-row sprite that fit on the display: sprites are clipped at the bottom edge.
pub open spec fn sprite_rows(s: Chip8State, yr: int, n: u8) -> int {
    if n as int <= DISPLAY_HEIGHT as int - sprite_y(s, yr) {
        n as int
    } else {
        DISPLAY_HEIGHT as int - sprite_y(s, yr)
    }
}

/// Address from which row `row` of a sprite is read: `I + row`, wrapping at 16 bits.
pub open spec fn sprite_row_address(i: u16, row: int) -> int {
    (i as int + row) % 0x10000
}

/// Bit `col` of a sprite row, counting from the most significant bit.
pub open spec fn pixel_bit(b: u8, col: int) -> bool {
    (b >> ((7 - col) as u8)) & 1u8 == 1u8
}

/// Whether display position `p` lies under the visible part of the sprite.
pub open spec fn sprite_covers(s: Chip8State, xr: int, yr: int, n: u8, p: int) -> bool {
    let col = p % DISPLAY_WIDTH as int - sprite_x(s, xr);
    let row = p / DISPLAY_WIDTH as int - sprite_y(s, yr);
    0 <= col < sprite_cols(s, xr) && 0 <= row < sprite_rows(s, yr, n)
}

/// Whether drawing the sprite flips the pixel at display position `p`.
pub open spec fn sprite_flips(s: Chip8State, xr: int, yr: int, n: u8, p: int) -> bool {
    let col = p % DISPLAY_WIDTH as int - sprite_x(s, xr);
    let row = p / DISPLAY_WIDTH as int - sprite_y(s, yr);
    sprite_covers(s, xr, yr, n, p) && pixel_bit(s.memory[sprite_row_address(s.i, row)], col)
}

/// Whether the sprite turns off a pixel that was on.
pub open spec fn sprite_collides(s: Chip8State, xr: int, yr: int, n: u8) -> bool {
    exists|p: int| 0 <= p < DISPLAY_SIZE as int && #[trigger] sprite_flips(s, xr, yr, n, p) && s.display[p]
}

/// Every row of the sprite that is drawn is read from inside memory.
pub open spec fn sprite_in_memory(s: Chip8State, yr: int, n: u8) -> bool {
    forall|row: int| 0 <= row < sprite_rows(s, yr, n) ==> #[trigger] sprite_row_address(s.i, row) < MEMORY_SIZE as int
}

/// The state after an `n`-row sprite from `I` is XOR-ed onto the display at
/// (`V[xr]`, `V[yr]`); `VF` tells whether a lit pixel was turned off.
pub open spec fn sprite_drawn(s: Chip8State, xr: int, yr: int, n: u8) -> Chip8State {
    Chip8State {
        display: Seq::new(DISPLAY_SIZE as nat, |p: int| s.display[p] != sprite_flips(s, xr, yr, n, p)),
        v: s.v.update(FLAG_REGISTER as int, if sprite_collides(s, xr, yr, n) { 1u8 } else { 0u8 }),
        ..s
    }
}

/// The state with every pixel of the display off.
pub open spec fn display_cleared(s: Chip8State) -> Chip8State {
    Chip8State { display: Seq::new(DISPLAY_SIZE as nat, |p: int| false), ..s }
}

// ---------------------------------------------------------------- instructions

/// `8XYk`: register arithmetic and logic.
pub open spec fn alu(s: Chip8State, x: int, y: int, k: u8) -> Chip8State {
    let vx = s.v[x];
    let vy = s.v[y];
    if k == 0x0 {
        set_v(s, x, vy)
    } else if k == 0x1 {
        set_v(s, x, vx | vy)
    } else if k == 0x2 {
        set_v(s, x, vx & vy)
    } else if k == 0x3 {
        set_v(s, x, vx ^ vy)
    } else if k == 0x4 {
        let sum = ((vx as int + vy as int) % 256) as u8;
        set_v(set_v(s, FLAG_REGISTER as int, if sum < vx { 1u8 } else { 0u8 }), x, sum)
    } else if k == 0x5 {
        let dif = ((vx as int - vy as int + 256) % 256) as u8;
        set_v(set_v(s, FLAG_REGISTER as int, if vy > vx { 0u8 } else { 1u8 }), x, dif)
    } else if k == 0x6 {
        let s1 = set_v(s, FLAG_REGISTER as int, vx & 1u8);
        set_v(s1, x, s1.v[x] >> 1u8)
    } else if k == 0x7 {
        let dif = ((vy as int - vx as int + 256) % 256) as u8;
        set_v(set_v(s, FLAG_REGISTER as int, if vx > vy { 0u8 } else { 1u8 }), x, dif)
    } else if k == 0xE {
        let s1 = set_v(s, FLAG_REGISTER as int, (vx >> 7u8) & 1u8);
        set_v(s1, x, s1.v[x] << 1u8)
    } else {
        s
    }
}

/// The three decimal digits of `b`, most significant first, stored from `addr`.
pub open spec fn bcd_stored(mem: Seq<u8>, addr: int, b: u8) -> Seq<u8> {
    mem.update(addr, b / 100).update(addr + 1, (b % 100) / 10).update(addr + 2, b % 10)
}

/// Registers `V0` to `Vx` stored in memory from `addr`.
pub open spec fn registers_stored(mem: Seq<u8>, addr: int, v: Seq<u8>, x: int) -> Seq<u8> {
    Seq::new(mem.len(), |a: int| if addr <= a <= addr + x { v[a - addr] } else { mem[a] })
}

/// Registers `V0` to `Vx` loaded from memory from `addr`.
pub open spec fn registers_loaded(v: Seq<u8>, addr: int, mem: Seq<u8>, x: int) -> Seq<u8> {
    Seq::new(v.len(), |r: int| if r <= x { mem[addr + r] } else { v[r] })
}

/// `FXkk`: timers, keypad, index register and memory transfers.
/// The memory transfers (`FX33`, `FX55`, `FX65`) address memory from the
/// address register `I`.
pub open spec fn misc(s: Chip8State, op: u16, key: u8) -> Chip8State {
    let x = op_x(op);
    let k = op_nn(op);
    let addr = s.i as int;
    if k == 0x07 {
        set_v(s, x, s.delay_timer)
    } else if k == 0x0A {
        if key <= 0xF { set_v(s, x, key) } else { Chip8State { pc: (s.pc - 2) as u16, ..s } }
    } else if k == 0x15 {
        Chip8State { delay_timer: s.v[x], ..s }
    } else if k == 0x18 {
        Chip8State { sound_timer: s.v[x], ..s }
    } else if k == 0x1E {
        Chip8State { i: ((s.i as int + s.v[x] as int) % 0x10000) as u16, ..s }
    } else if k == 0x29 {
        Chip8State { i: (FONT_START_ADDRESS as int + s.v[x] as int * 5) as u16, ..s }
    } else if k == 0x33 {
        Chip8State { memory: bcd_stored(s.memory, addr, s.v[x]), ..s }
    } else if k == 0x55 {
        Chip8State { memory: registers_stored(s.memory, addr, s.v, x), ..s }
    } else if k == 0x65 {
        Chip8State { v: registers_loaded(s.v, addr, s.memory, x), ..s }
    } else {
        s
    }
}

/// The effect of opcode `op` on a state whose program counter has already
/// moved past it. `7XNN` adds modulo 256 and `FX1E` modulo 65536, without
/// touching `VF`; `key` is the keypad key held (or `NO_KEY`) and `rnd` the
/// random byte that `CXNN` uses.
pub open spec fn execute(s: Chip8State, op: u16, key: u8, rnd: u8) -> Chip8State {
    let f = op_family(op);
    let x = op_x(op);
    let y = op_y(op);
    let nn = op_nn(op);
    let nnn = op_nnn(op);
    if f == 0x0 {
        if nnn == 0x0E0 {
            display_cleared(s)
        } else if nnn == 0x0EE {
            Chip8State { pc: s.stack.last(), stack: s.stack.drop_last(), ..s }
        } else {
            s
        }
    } else if f == 0x1 {
        Chip8State { pc: nnn, ..s }
    } else if f == 0x2 {
        Chip8State { pc: nnn, stack: s.stack.push(s.pc), ..s }
    } else if f == 0x3 {
        if s.v[x] == nn { advance(s) } else { s }
    } else if f == 0x4 {
        if s.v[x] != nn { advance(s) } else { s }
    } else if f == 0x5 {
        if op_n(op) == 0 && s.v[x] == s.v[y] { advance(s) } else { s }
    } else if f == 0x6 {
        set_v(s, x, nn)
    } else if f == 0x7 {
        set_v(s, x, ((s.v[x] as int + nn as int) % 256) as u8)
    } else if f == 0x8 {
        alu(s, x, y, op_n(op))
    } else if f == 0x9 {
        if op_n(op) == 0 && s.v[x] != s.v[y] { advance(s) } else { s }
    } else if f == 0xA {
        Chip8State { i: nnn, ..s }
    } else if f == 0xB {
        Chip8State { pc: (s.v[0] as int + nnn as int) as u16, ..s }
    } else if f == 0xC {
        set_v(s, x, rnd & nn)
    } else if f == 0xD {
        sprite_drawn(s, x, y, op_n(op))
    } else if f == 0xF {
        misc(s, op, key)
    } else {
        s
    }
}

/// Whether the memory that a transfer (`FX33`, `FX55`, `FX65`) reads or
/// writes from `I` lies inside memory: three bytes for `FX33`, `X + 1`
/// bytes for the others. Other opcodes transfer nothing.
pub open spec fn transfer_in_memory(s: Chip8State, op: u16) -> bool {
    op_family(op) == 0xF ==> {
        &&& op_nn(op) == 0x33 ==> s.i as int + 2 < MEMORY_SIZE as int
        &&& (op_nn(op) == 0x55 || op_nn(op) == 0x65) ==> s.i as int + op_x(op) < MEMORY_SIZE as int
    }
}

/// Whether opcode `op` can run on `s` without a fault: a return needs a
/// non-empty stack, a sprite must be read from inside memory, and a memory
/// transfer must stay inside memory.
pub open spec fn executable(s: Chip8State, op: u16) -> bool {
    &&& op == 0x00EE ==> s.stack.len() > 0
    &&& op_family(op) == 0xD ==> sprite_in_memory(s, op_y(op), op_n(op))
    &&& transfer_in_memory(s, op)
}

/// Whether one instruction can run on `s` without a fault: the opcode lies
/// in memory and can be executed.
pub open spec fn can_step(s: Chip8State) -> bool {
    &&& s.pc as int + 1 < MEMORY_SIZE as int
    &&& executable(s, fetch(s))
}

/// One fetch-decode-execute cycle.
pub open spec fn step(s: Chip8State, key: u8, rnd: u8) -> Chip8State {
    execute(advance(s), fetch(s), key, rnd)
}

/// A timer counted down once; a timer at zero wraps to 255.
pub open spec fn timer_ticked(t: u8) -> u8 {
    if t > 0 { (t - 1) as u8 } else { 255u8 }
}

/// A timer counted down `k` times.
pub open spec fn timer_ticked_times(t: u8, k: nat) -> u8
    decreases k,
{
    if k == 0 { t } else { timer_ticked(timer_ticked_times(t, (k - 1) as nat)) }
}


// ---------------------------------------------------------------- output

/// The display as 24-bit RGB pixels, three bytes each: white for a lit
/// pixel, black otherwise.
pub open spec fn rgb24_frame(display: Seq<bool>) -> Seq<u8> {
    Seq::new(3 * display.len(), |k: int| if display[k / 3] { 255u8 } else { 0u8 })
}

/// The non-zero two-byte words among the first `words` words of memory, each
/// as (address, first byte, second byte), in increasing address order.
pub open spec fn nonzero_words(mem: Seq<u8>, words: nat) -> Seq<(usize, u8, u8)>
    decreases words,
{
    if words == 0 {
        Seq::empty()
    } else {
        let rest = nonzero_words(mem, (words - 1) as nat);
        let a = 2 * (words - 1);
        if mem[a] == 0 && mem[a + 1] == 0 {
            rest
        } else {
            rest.push((a as usize, mem[a], mem[a + 1]))
        }
    }
}

// ---------------------------------------------------------------- start-up

/// The hexadecimal font: five rows of one byte for each digit 0 to F.
pub open spec fn font() -> Seq<u8> {
    seq![
        0xF0u8, 0x90u8, 0x90u8, 0x90u8, 0xF0u8,
        0x20u8, 0x60u8, 0x20u8, 0x20u8, 0x70u8,
        0xF0u8, 0x10u8, 0xF0u8, 0x80u8, 0xF0u8,
        0xF0u8, 0x10u8, 0xF0u8, 0x10u8, 0xF0u8,
        0x90u8, 0x90u8, 0xF0u8, 0x10u8, 0x10u8,
        0xF0u8, 0x80u8, 0xF0u8, 0x10u8, 0xF0u8,
        0xF0u8, 0x80u8, 0xF0u8, 0x90u8, 0xF0u8,
        0xF0u8, 0x10u8, 0x20u8, 0x40u8, 0x40u8,
        0xF0u8, 0x90u8, 0xF0u8, 0x90u8, 0xF0u8,
        0xF0u8, 0x90u8, 0xF0u8, 0x10u8, 0xF0u8,
        0xF0u8, 0x90u8, 0xF0u8, 0x90u8, 0x90u8,
        0xE0u8, 0x90u8, 0xE0u8, 0x90u8, 0xE0u8,
        0xF0u8, 0x80u8, 0x80u8, 0x80u8, 0xF0u8,
        0xE0u8, 0x90u8, 0x90u8, 0x90u8, 0xE0u8,
        0xF0u8, 0x80u8, 0xF0u8, 0x80u8, 0xF0u8,
        0xF0u8, 0x80u8, 0xF0u8, 0x80u8, 0x80u8,
    ]
}

/// Largest program that fits in memory after `START_ADDRESS`.
pub open spec fn max_rom_len() -> int {
    MEMORY_SIZE as int - START_ADDRESS as int
}

/// Memory at start-up: the font at `FONT_START_ADDRESS`, the program at
/// `START_ADDRESS`, zero elsewhere.
pub open spec fn initial_memory(rom: Seq<u8>) -> Seq<u8> {
    Seq::new(MEMORY_SIZE as nat, |a: int|
        if FONT_START_ADDRESS as int <= a < FONT_START_ADDRESS as int + 80 {
            font()[a - FONT_START_ADDRESS as int]
        } else if START_ADDRESS as int <= a < START_ADDRESS as int + rom.len() {
            rom[a - START_ADDRESS as int]
        } else {
            0u8
        })
}

/// The machine at power-on with memory `mem`: display off, registers and
/// timers zero, empty stack, execution at `START_ADDRESS`.
pub open spec fn power_on(mem: Seq<u8>) -> Chip8State {
    Chip8State {
        memory: mem,
        display: Seq::new(DISPLAY_SIZE as nat, |p: int| false),
        i: 0,
        pc: START_ADDRESS,
        delay_timer: 0,
        sound_timer: 0,
        v: Seq::new(REGISTER_COUNT as nat, |r: int| 0u8),
        stack: Seq::empty(),
    }
}

} // verus!
