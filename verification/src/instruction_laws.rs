use vstd::prelude::*;
use crate::machine::{
    Chip8State, can_step, fetch, op_family, op_n, op_nn, op_nnn, op_x, op_y, rgb24_frame,
    sprite_drawn, step, alu, is_unknown, power_on, initial_memory, font, nonzero_words, DISPLAY_SIZE, FLAG_REGISTER, MEMORY_SIZE,
};

// What each instruction does, stated on the two raw bytes of the opcode at
// the program counter (`hi`, `lo`) and on the fields of the machine, without
// going through the decoding and instruction spec functions.

verus! {

/// The opcode is the two bytes at the program counter, big-endian. Its
/// fields read from the raw bytes: the family is the high nibble
/// of the first byte, `X` its low nibble, `Y` and `N` the nibbles of the
/// second byte, `NN` the second byte, `NNN` the low twelve bits.
pub proof fn lemma_opcode_fields(s: Chip8State)
    requires
        s.wf(),
        s.pc as int + 1 < MEMORY_SIZE as int,
    ensures
        ({
            let hi = s.memory[s.pc as int];
            let lo = s.memory[s.pc as int + 1];
            let op = fetch(s);
            &&& op as int == hi as int * 256 + lo as int
            &&& op_family(op) as int == hi as int / 16
            &&& op_x(op) == hi as int % 16
            &&& op_y(op) == lo as int / 16
            &&& op_n(op) as int == lo as int % 16
            &&& op_nn(op) == lo
            &&& op_nnn(op) as int == (hi as int % 16) * 256 + lo as int
        }),
{
    let hi = s.memory[s.pc as int];
    let lo = s.memory[s.pc as int + 1];
    assert(fetch(s) as int == hi as int * 256 + lo as int);
    assert(((hi as u16) * 256 + (lo as u16)) / 0x1000 == (hi as u16) / 16) by (bit_vector);
    assert((((hi as u16) * 256 + (lo as u16)) / 0x100) % 0x10 == (hi as u16) % 16) by (bit_vector);
    assert((((hi as u16) * 256 + (lo as u16)) / 0x10) % 0x10 == (lo as u16) / 16) by (bit_vector);
    assert(((hi as u16) * 256 + (lo as u16)) % 0x10 == (lo as u16) % 16) by (bit_vector);
    assert(((hi as u16) * 256 + (lo as u16)) % 0x100 == (lo as u16)) by (bit_vector);
    assert(((hi as u16) * 256 + (lo as u16)) % 0x1000 == ((hi as u16) % 16) * 256 + (lo as u16)) by (bit_vector);
}


/// `00E0` turns every pixel off and only moves the program counter on.
pub proof fn lemma_clear_screen_law(s: Chip8State, key: u8, rnd: u8)
    requires
        s.wf(),
        can_step(s),
        s.memory[s.pc as int] == 0x00,
        s.memory[s.pc as int + 1] == 0xE0,
    ensures
        ({
            let t = step(s, key, rnd);
            &&& t == (Chip8State { display: t.display, pc: (s.pc + 2) as u16, ..s })
            &&& t.display.len() == DISPLAY_SIZE
            &&& forall|p: int| 0 <= p < DISPLAY_SIZE as int ==> !t.display[p]
        }),
{
    lemma_opcode_fields(s);
}

/// `00EE` pops the return address into the program counter.
pub proof fn lemma_return_law(s: Chip8State, key: u8, rnd: u8)
    requires
        s.wf(),
        can_step(s),
        s.memory[s.pc as int] == 0x00,
        s.memory[s.pc as int + 1] == 0xEE,
    ensures
        ({
            let t = step(s, key, rnd);
            &&& t.stack.push(t.pc) == s.stack
            &&& t == (Chip8State { pc: t.pc, stack: t.stack, ..s })
        }),
{
    lemma_opcode_fields(s);
    let t = step(s, key, rnd);
    assert(t.stack.push(t.pc) =~= s.stack);
}

/// `1NNN` jumps to `NNN`; `2NNN` calls `NNN`, pushing the address of the
/// next instruction; `BNNN` jumps to `V0 + NNN`; `ANNN` sets `I` to `NNN`.
pub proof fn lemma_jump_call_law(s: Chip8State, key: u8, rnd: u8)
    requires
        s.wf(),
        can_step(s),
    ensures
        ({
            let hi = s.memory[s.pc as int];
            let lo = s.memory[s.pc as int + 1];
            let nnn = (hi as int % 16) * 256 + lo as int;
            let t = step(s, key, rnd);
            &&& hi / 16 == 0x1 ==> t == (Chip8State { pc: nnn as u16, ..s })
            &&& hi / 16 == 0x2 ==> t == (Chip8State { pc: nnn as u16, stack: s.stack.push((s.pc + 2) as u16), ..s })
            &&& hi / 16 == 0xA ==> t == (Chip8State { i: nnn as u16, pc: (s.pc + 2) as u16, ..s })
            &&& hi / 16 == 0xB ==> t == (Chip8State { pc: (s.v[0] + nnn) as u16, ..s })
            &&& hi / 16 == 0xB ==> t.pc as int == s.v[0] + nnn
        }),
{
    lemma_opcode_fields(s);
}

/// The conditional skips: `3XNN` skips the next instruction exactly when
/// `VX == NN`, `4XNN` exactly when `VX != NN`, `5XY0` when `VX == VY`, `9XY0`
/// when `VX != VY` (`5XYk` and `9XYk` with `k != 0` never skip). A skip moves
/// the program counter by 4, otherwise by 2; nothing else changes.
pub proof fn lemma_skip_law(s: Chip8State, key: u8, rnd: u8)
    requires
        s.wf(),
        can_step(s),
    ensures
        ({
            let hi = s.memory[s.pc as int];
            let lo = s.memory[s.pc as int + 1];
            let vx = s.v[hi as int % 16];
            let vy = s.v[lo as int / 16];
            let t = step(s, key, rnd);
            let by4 = Chip8State { pc: (s.pc + 4) as u16, ..s };
            let by2 = Chip8State { pc: (s.pc + 2) as u16, ..s };
            &&& hi / 16 == 0x3 ==> t == if vx == lo { by4 } else { by2 }
            &&& hi / 16 == 0x4 ==> t == if vx != lo { by4 } else { by2 }
            &&& hi / 16 == 0x5 ==> t == if lo % 16 == 0 && vx == vy { by4 } else { by2 }
            &&& hi / 16 == 0x9 ==> t == if lo % 16 == 0 && vx != vy { by4 } else { by2 }
            &&& (hi / 16 == 0x3 || hi / 16 == 0x4 || hi / 16 == 0x5 || hi / 16 == 0x9) ==>
                (t.pc == s.pc + 2 || t.pc == s.pc + 4)
        }),
{
    lemma_opcode_fields(s);
}

/// Only register `r` may differ between `v` and `w`.
pub open spec fn others_kept(v: Seq<u8>, w: Seq<u8>, r: int) -> bool {
    &&& v.len() == w.len()
    &&& forall|q: int| 0 <= q < v.len() && q != r ==> v[q] == w[q]
}

/// `6XNN` loads `NN` into `VX`; `7XNN` adds `NN` to `VX` modulo 256,
/// leaving `VF` alone; `CXNN` stores the random byte masked by `NN`.
/// Nothing else but the program counter changes.
pub proof fn lemma_immediate_law(s: Chip8State, key: u8, rnd: u8)
    requires
        s.wf(),
        can_step(s),
    ensures
        ({
            let hi = s.memory[s.pc as int];
            let lo = s.memory[s.pc as int + 1];
            let x = hi as int % 16;
            let t = step(s, key, rnd);
            &&& (hi / 16 == 0x6 || hi / 16 == 0x7 || hi / 16 == 0xC) ==> {
                &&& t == (Chip8State { v: t.v, pc: (s.pc + 2) as u16, ..s })
                &&& others_kept(t.v, s.v, x)
            }
            &&& hi / 16 == 0x6 ==> t.v[x] == lo
            &&& hi / 16 == 0x7 ==> t.v[x] as int == (s.v[x] as int + lo as int) % 256
            &&& hi / 16 == 0xC ==> t.v[x] == rnd & lo
        }),
{
    lemma_opcode_fields(s);
}

/// What `8XYk` does to the registers, on any state `s` (`x` not `F`).
proof fn lemma_alu_registers(s: Chip8State, x: int, y: int, k: u8)
    requires
        s.wf(),
        0 <= x < 15,
        0 <= y < 16,
    ensures
        ({
            let vx = s.v[x];
            let vy = s.v[y];
            let t = alu(s, x, y, k);
            let nx = t.v[x] as int;
            let nf = t.v[FLAG_REGISTER as int] as int;
            &&& t == (Chip8State { v: t.v, ..s })
            &&& t.v.len() == s.v.len()
            &&& forall|q: int| 0 <= q < 16 && q != x && q != FLAG_REGISTER as int ==> t.v[q] == s.v[q]
            &&& k <= 3 ==> others_kept(t.v, s.v, x)
            &&& k == 0 ==> t.v[x] == vy
            &&& k == 1 ==> t.v[x] == vx | vy
            &&& k == 2 ==> t.v[x] == vx & vy
            &&& k == 3 ==> t.v[x] == vx ^ vy
            &&& k == 4 ==> nx + 256 * nf == vx + vy && nf <= 1
            &&& k == 5 ==> nx == vx - vy + 256 * (1 - nf) && (nf == 1) == (vx >= vy) && nf <= 1
            &&& k == 6 ==> 2 * nx + nf == vx && nf <= 1
            &&& k == 7 ==> nx == vy - vx + 256 * (1 - nf) && (nf == 1) == (vy >= vx) && nf <= 1
            &&& k == 0xE ==> nx + 256 * nf == 2 * vx && nf <= 1
            &&& !(k <= 7 || k == 0xE) ==> t == s
        }),
{
    let vx = s.v[x];
    if k == 6 {
        assert((vx & 1u8) as int == vx as int % 2 && (vx >> 1u8) as int == vx as int / 2) by (bit_vector);
    } else if k == 0xE {
        assert(((vx >> 7u8) & 1u8) as int == vx as int / 128 && (vx << 1u8) as int == (2 * vx as int) % 256) by (bit_vector);
    }
}

/// `8XYk`: `k = 0..3` copy, or, and, xor `VY` into `VX`; `4` adds with the
/// carry in `VF`; `5` and `7` subtract (`VX - VY`, `VY - VX`) with `VF` = 1
/// when there is no borrow; `6` and `E` shift `VX` right and left with the
/// bit shifted out in `VF` (for `X` other than `F`). Only `VX` and `VF`
/// change, and the program counter.
pub proof fn lemma_alu_law(s: Chip8State, key: u8, rnd: u8)
    requires
        s.wf(),
        can_step(s),
        s.memory[s.pc as int] / 16 == 0x8,
        s.memory[s.pc as int] % 16 != 0xF,
    ensures
        ({
            let hi = s.memory[s.pc as int];
            let lo = s.memory[s.pc as int + 1];
            let x = hi as int % 16;
            let vx = s.v[x];
            let vy = s.v[lo as int / 16];
            let k = lo % 16;
            let t = step(s, key, rnd);
            let nx = t.v[x] as int;
            let nf = t.v[FLAG_REGISTER as int] as int;
            &&& t == (Chip8State { v: t.v, pc: (s.pc + 2) as u16, ..s })
            &&& t.v.len() == s.v.len()
            &&& forall|q: int| 0 <= q < 16 && q != x && q != FLAG_REGISTER as int ==> t.v[q] == s.v[q]
            &&& k <= 3 ==> others_kept(t.v, s.v, x)
            &&& k == 0 ==> t.v[x] == vy
            &&& k == 1 ==> t.v[x] == vx | vy
            &&& k == 2 ==> t.v[x] == vx & vy
            &&& k == 3 ==> t.v[x] == vx ^ vy
            &&& k == 4 ==> nx + 256 * nf == vx + vy && nf <= 1
            &&& k == 5 ==> nx == vx - vy + 256 * (1 - nf) && (nf == 1) == (vx >= vy) && nf <= 1
            &&& k == 6 ==> 2 * nx + nf == vx && nf <= 1
            &&& k == 7 ==> nx == vy - vx + 256 * (1 - nf) && (nf == 1) == (vy >= vx) && nf <= 1
            &&& k == 0xE ==> nx + 256 * nf == 2 * vx && nf <= 1
            &&& !(k <= 7 || k == 0xE) ==> t == (Chip8State { pc: (s.pc + 2) as u16, ..s })
        }),
{
    lemma_opcode_fields(s);
    let op = fetch(s);
    let a = Chip8State { pc: (s.pc + 2) as u16, ..s };
    assert(step(s, key, rnd) == alu(a, op_x(op), op_y(op), op_n(op)));
    lemma_alu_registers(a, op_x(op), op_y(op), op_n(op));
}

/// `FX07`, `FX15`, `FX18`: copy between `VX` and the timers; `FX1E` adds
/// `VX` to `I` modulo 65536; `FX29` points `I` at the five-byte glyph of
/// digit `VX` in the font. Nothing else but the program counter changes.
pub proof fn lemma_timer_and_index_law(s: Chip8State, key: u8, rnd: u8)
    requires
        s.wf(),
        can_step(s),
        s.memory[s.pc as int] / 16 == 0xF,
    ensures
        ({
            let hi = s.memory[s.pc as int];
            let lo = s.memory[s.pc as int + 1];
            let x = hi as int % 16;
            let vx = s.v[x];
            let t = step(s, key, rnd);
            let next = (s.pc + 2) as u16;
            &&& lo == 0x07 ==> t.v[x] == s.delay_timer && others_kept(t.v, s.v, x)
                && t == (Chip8State { v: t.v, pc: next, ..s })
            &&& lo == 0x15 ==> t == (Chip8State { delay_timer: vx, pc: next, ..s })
            &&& lo == 0x18 ==> t == (Chip8State { sound_timer: vx, pc: next, ..s })
            &&& lo == 0x1E ==> t == (Chip8State { i: ((s.i + vx) % 0x10000) as u16, pc: next, ..s })
            &&& lo == 0x29 ==> t == (Chip8State { i: (0x50 + 5 * vx) as u16, pc: next, ..s })
                && t.i == 0x50 + 5 * vx
        }),
{
    lemma_opcode_fields(s);
}

/// `FX0A` waits for a key: with keypad key `key` (at most 0xF) held it stores
/// the key in `VX` and moves on; with no keypad key held the machine stays as
/// it is, so the same instruction runs again.
pub proof fn lemma_key_wait_law(s: Chip8State, key: u8, rnd: u8)
    requires
        s.wf(),
        can_step(s),
        s.memory[s.pc as int] / 16 == 0xF,
        s.memory[s.pc as int + 1] == 0x0A,
    ensures
        ({
            let x = s.memory[s.pc as int] as int % 16;
            let t = step(s, key, rnd);
            &&& key <= 0xF ==> t.v[x] == key && t.pc == s.pc + 2 && others_kept(t.v, s.v, x)
                && t == (Chip8State { v: t.v, pc: t.pc, ..s })
            &&& key > 0xF ==> t == s
        }),
{
    lemma_opcode_fields(s);
}

/// `FX55` stores `V0..VX` at `I..I+X` and changes no other memory; `FX65`
/// loads `V0..VX` from `I..I+X` and changes no other register.
pub proof fn lemma_register_transfer_law(s: Chip8State, key: u8, rnd: u8)
    requires
        s.wf(),
        can_step(s),
        s.memory[s.pc as int] / 16 == 0xF,
    ensures
        ({
            let x = s.memory[s.pc as int] as int % 16;
            let lo = s.memory[s.pc as int + 1];
            let i = s.i as int;
            let t = step(s, key, rnd);
            let next = (s.pc + 2) as u16;
            &&& lo == 0x55 ==> {
                &&& t == (Chip8State { memory: t.memory, pc: next, ..s })
                &&& t.memory.len() == s.memory.len()
                &&& forall|r: int| 0 <= r <= x ==> t.memory[i + r] == s.v[r]
                &&& forall|a: int| 0 <= a < MEMORY_SIZE as int && !(i <= a <= i + x) ==> t.memory[a] == s.memory[a]
            }
            &&& lo == 0x65 ==> {
                &&& t == (Chip8State { v: t.v, pc: next, ..s })
                &&& t.v.len() == s.v.len()
                &&& forall|r: int| 0 <= r <= x ==> t.v[r] == s.memory[i + r]
                &&& forall|r: int| x < r < 16 ==> t.v[r] == s.v[r]
            }
        }),
{
    lemma_opcode_fields(s);
}

/// Drawing a sprite sets `VF` to 1 exactly when some pixel that was lit is
/// dark afterwards, and to 0 otherwise; the pixels of the 8-by-`n` rectangle
/// at (`V[xr]` mod 64, `V[yr]` mod 32) that lie on the display flip exactly
/// where the sprite row read from `(I + row) mod 65536` has a 1 bit (most
/// significant bit leftmost); every other pixel, every other register and the
/// rest of the machine stay as they were.
pub proof fn lemma_sprite_law(s: Chip8State, xr: int, yr: int, n: u8)
    requires
        s.wf(),
        0 <= xr < 16,
        0 <= yr < 16,
    ensures
        ({
            let t = sprite_drawn(s, xr, yr, n);
            let xs = s.v[xr] as int % 64;
            let ys = s.v[yr] as int % 32;
            &&& t.v[FLAG_REGISTER as int] == if exists|p: int| 0 <= p < DISPLAY_SIZE as int && s.display[p] && !#[trigger] t.display[p] { 1u8 } else { 0u8 }
            &&& others_kept(t.v, s.v, FLAG_REGISTER as int)
            &&& t == (Chip8State { display: t.display, v: t.v, ..s })
            &&& t.display.len() == DISPLAY_SIZE
            &&& forall|p: int| 0 <= p < DISPLAY_SIZE as int
                && !(xs <= p % 64 < xs + 8 && ys <= p / 64 < ys + n) ==> #[trigger] t.display[p] == s.display[p]
            &&& forall|col: int, row: int| 0 <= col < 8 && 0 <= row < n && xs + col < 64 && ys + row < 32 ==>
                #[trigger] t.display[(xs + col) + (ys + row) * 64] ==
                    (s.display[(xs + col) + (ys + row) * 64] !=
                        ((s.memory[(s.i as int + row) % 0x10000] >> ((7 - col) as u8)) & 1u8 == 1u8))
        }),
{
    let t = sprite_drawn(s, xr, yr, n);
    assert forall|p: int| 0 <= p < DISPLAY_SIZE as int implies
        (s.display[p] && !#[trigger] t.display[p]) == (crate::machine::sprite_flips(s, xr, yr, n, p) && s.display[p]) by {}
    if crate::machine::sprite_collides(s, xr, yr, n) {
        let p = choose|p: int| 0 <= p < DISPLAY_SIZE as int && #[trigger] crate::machine::sprite_flips(s, xr, yr, n, p) && s.display[p];
        assert(s.display[p] && !t.display[p]);
    }
    if exists|p: int| 0 <= p < DISPLAY_SIZE as int && s.display[p] && !#[trigger] t.display[p] {
        let p = choose|p: int| 0 <= p < DISPLAY_SIZE as int && s.display[p] && !#[trigger] t.display[p];
        assert(crate::machine::sprite_flips(s, xr, yr, n, p));
    }
    assert forall|col: int, row: int| 0 <= col < 8 && 0 <= row < n && s.v[xr] as int % 64 + col < 64 && s.v[yr] as int % 32 + row < 32 implies
        #[trigger] t.display[(s.v[xr] as int % 64 + col) + (s.v[yr] as int % 32 + row) * 64] ==
            (s.display[(s.v[xr] as int % 64 + col) + (s.v[yr] as int % 32 + row) * 64] !=
                ((s.memory[(s.i as int + row) % 0x10000] >> ((7 - col) as u8)) & 1u8 == 1u8)) by {
        let xs = s.v[xr] as int % 64;
        let ys = s.v[yr] as int % 32;
        let p = (xs + col) + (ys + row) * 64;
        assert(p % 64 == xs + col && p / 64 == ys + row && 0 <= p < 2048) by (nonlinear_arith)
            requires 0 <= xs + col < 64, 0 <= ys + row < 32, p == (xs + col) + (ys + row) * 64;
    }
}

/// `DXYN` sets `VF` to 1 exactly when the drawing turns some lit pixel dark,
/// and to 0 otherwise.
pub proof fn lemma_draw_collision_law(s: Chip8State, key: u8, rnd: u8)
    requires
        s.wf(),
        can_step(s),
        s.memory[s.pc as int] / 16 == 0xD,
    ensures
        ({
            let t = step(s, key, rnd);
            &&& t.v[FLAG_REGISTER as int] == if exists|p: int| 0 <= p < DISPLAY_SIZE as int && s.display[p] && !#[trigger] t.display[p] { 1u8 } else { 0u8 }
            &&& t.pc == s.pc + 2
        }),
{
    lemma_opcode_fields(s);
    let op = fetch(s);
    let a = Chip8State { pc: (s.pc + 2) as u16, ..s };
    lemma_sprite_law(a, op_x(op), op_y(op), op_n(op));
}

/// The frame has three bytes per display pixel: pixel `p` is bytes `3p`,
/// `3p + 1`, `3p + 2`, all 255 when it is lit and all 0 when it is dark.
pub proof fn lemma_frame_law(display: Seq<bool>)
    requires
        display.len() == DISPLAY_SIZE,
    ensures
        rgb24_frame(display).len() == 3 * DISPLAY_SIZE,
        forall|p: int, c: int| 0 <= p < DISPLAY_SIZE as int && 0 <= c < 3 ==>
            #[trigger] rgb24_frame(display)[3 * p + c] == if display[p] { 255u8 } else { 0u8 },
{
    assert forall|p: int, c: int| 0 <= p < DISPLAY_SIZE as int && 0 <= c < 3 implies
        #[trigger] rgb24_frame(display)[3 * p + c] == if display[p] { 255u8 } else { 0u8 } by {
        assert((3 * p + c) / 3 == p && 0 <= 3 * p + c < 6144) by (nonlinear_arith)
            requires 0 <= p < 2048, 0 <= c < 3;
    }
}


/// The opcodes that are reported as unknown, read on the raw bytes: in group
/// 0 anything but `00E0` and `00EE`; in group 8 the last nibbles 8 to D and F;
/// all of group E; in group F any second byte other than 07, 0A, 15, 18, 1E,
/// 29, 33, 55, 65. Every other opcode is known.
pub proof fn lemma_unknown_law(s: Chip8State)
    requires
        s.wf(),
        s.pc as int + 1 < MEMORY_SIZE as int,
    ensures
        ({
            let hi = s.memory[s.pc as int];
            let lo = s.memory[s.pc as int + 1];
            is_unknown(fetch(s)) <==> {
                ||| hi / 16 == 0x0 && !(hi == 0 && (lo == 0xE0 || lo == 0xEE))
                ||| hi / 16 == 0x8 && (8 <= lo % 16 <= 0xD || lo % 16 == 0xF)
                ||| hi / 16 == 0xE
                ||| hi / 16 == 0xF && !(lo == 0x07 || lo == 0x0A || lo == 0x15 || lo == 0x18
                    || lo == 0x1E || lo == 0x29 || lo == 0x33 || lo == 0x55 || lo == 0x65)
            }
        }),
{
    lemma_opcode_fields(s);
}

/// One instruction can run exactly when both bytes of the opcode lie in
/// memory, a return (`00EE`) finds a return address on the stack, every
/// visible row of a sprite (`DXYN`: `min(N, 32 - VY mod 32)` rows from `I`,
/// wrapping at 16 bits) lies in memory, and a memory transfer (`FX33` three
/// bytes, `FX55`/`FX65` `X + 1` bytes from `I`) lies in memory.
pub proof fn lemma_can_step_law(s: Chip8State)
    requires
        s.wf(),
    ensures
        can_step(s) <==> {
            &&& s.pc as int + 1 < MEMORY_SIZE as int
            &&& ({
                let hi = s.memory[s.pc as int];
                let lo = s.memory[s.pc as int + 1];
                let x = hi as int % 16;
                let ys = s.v[lo as int / 16] as int % 32;
                let rows = if lo as int % 16 <= 32 - ys { lo as int % 16 } else { 32 - ys };
                &&& (hi == 0 && lo == 0xEE) ==> s.stack.len() > 0
                &&& hi / 16 == 0xD ==> forall|row: int| 0 <= row < rows ==> #[trigger] ((s.i as int + row) % 0x10000) < MEMORY_SIZE as int
                &&& (hi / 16 == 0xF && lo == 0x33) ==> s.i as int + 2 < MEMORY_SIZE as int
                &&& (hi / 16 == 0xF && (lo == 0x55 || lo == 0x65)) ==> s.i as int + x < MEMORY_SIZE as int
            })
        },
{
    if s.pc as int + 1 < MEMORY_SIZE as int {
        lemma_opcode_fields(s);
        let hi = s.memory[s.pc as int];
        let lo = s.memory[s.pc as int + 1];
        assert((fetch(s) == 0x00EE) == (hi == 0 && lo == 0xEE));
        if hi / 16 == 0xD {
            let op = fetch(s);
            assert(crate::machine::sprite_in_memory(s, op_y(op), op_n(op)) ==
                forall|row: int| 0 <= row < crate::machine::sprite_rows(s, op_y(op), op_n(op)) ==> #[trigger] ((s.i as int + row) % 0x10000) < MEMORY_SIZE as int) by {
                if crate::machine::sprite_in_memory(s, op_y(op), op_n(op)) {
                    assert forall|row: int| 0 <= row < crate::machine::sprite_rows(s, op_y(op), op_n(op)) implies #[trigger] ((s.i as int + row) % 0x10000) < MEMORY_SIZE as int by {
                        assert(crate::machine::sprite_row_address(s.i, row) < MEMORY_SIZE as int);
                    }
                }
            }
        }
    }
}

/// At power-on with program `rom`: the program sits at 0x200, the font at
/// 0x50 (80 bytes), every other byte is zero, execution starts at 0x200, and
/// registers, `I`, timers, stack and display are all cleared.
pub proof fn lemma_power_on_law(rom: Seq<u8>)
    requires
        rom.len() <= MEMORY_SIZE as int - 0x200,
    ensures
        ({
            let s = power_on(initial_memory(rom));
            &&& s.wf()
            &&& forall|k: int| 0 <= k < rom.len() ==> #[trigger] s.memory[0x200 + k] == rom[k]
            &&& forall|k: int| 0 <= k < 80 ==> #[trigger] s.memory[0x50 + k] == font()[k]
            &&& forall|a: int| 0 <= a < MEMORY_SIZE as int && !(0x50 <= a < 0xA0) && !(0x200 <= a < 0x200 + rom.len())
                ==> #[trigger] s.memory[a] == 0
            &&& s.pc == 0x200 && s.i == 0 && s.delay_timer == 0 && s.sound_timer == 0
            &&& s.stack.len() == 0
            &&& forall|r: int| 0 <= r < 16 ==> #[trigger] s.v[r] == 0
            &&& forall|p: int| 0 <= p < DISPLAY_SIZE as int ==> !#[trigger] s.display[p]
        }),
{
}

/// The memory dump lists, by strictly increasing even address `a`, exactly
/// the words whose two bytes `mem[a]`, `mem[a + 1]` are not both zero, each
/// with those two bytes.
pub proof fn lemma_dump_law(mem: Seq<u8>, words: nat)
    requires
        2 * words <= mem.len() <= MEMORY_SIZE,
    ensures
        ({
            let d = nonzero_words(mem, words);
            &&& forall|j: int| 0 <= j < d.len() ==> {
                let (a, hi, lo) = #[trigger] d[j];
                &&& a as int % 2 == 0 && a < 2 * words
                &&& hi == mem[a as int] && lo == mem[a as int + 1]
                &&& !(hi == 0 && lo == 0)
            }
            &&& forall|j: int, k: int| 0 <= j < k < d.len() ==> (#[trigger] d[j]).0 < (#[trigger] d[k]).0
            &&& forall|a: int| 0 <= a < 2 * words && a % 2 == 0 && !(#[trigger] mem[a] == 0 && mem[a + 1] == 0) ==>
                exists|j: int| 0 <= j < d.len() && (#[trigger] d[j]).0 == a
        }),
    decreases words,
{
    if words > 0 {
        lemma_dump_law(mem, (words - 1) as nat);
        let rest = nonzero_words(mem, (words - 1) as nat);
        let d = nonzero_words(mem, words);
        let a = 2 * (words - 1);
        assert(d == if mem[a] == 0 && mem[a + 1] == 0 { rest } else { rest.push((a as usize, mem[a], mem[a + 1])) });
        assert forall|b: int| 0 <= b < 2 * words && b % 2 == 0 && !(#[trigger] mem[b] == 0 && mem[b + 1] == 0) implies
            exists|j: int| 0 <= j < d.len() && (#[trigger] d[j]).0 == b by {
            if b < a {
                assert(exists|j: int| 0 <= j < rest.len() && (#[trigger] rest[j]).0 == b);
                let j = choose|j: int| 0 <= j < rest.len() && (#[trigger] rest[j]).0 == b;
                if !(mem[a] == 0 && mem[a + 1] == 0) {
                    assert(d[j] == rest.push((a as usize, mem[a], mem[a + 1]))[j]);
                }
                assert(d[j] == rest[j]);
            } else {
                assert(b == a);
                assert(d[rest.len() as int].0 == b);
            }
        }
    }
}

} // verus!
