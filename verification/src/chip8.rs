use rand::RngExt;
use vstd::prelude::*;
use crate::instruction_laws::{lemma_frame_law, lemma_sprite_law};
use crate::keypad::{first_key, key_of_scancode, lemma_first_key_skip};
use crate::machine::{
    Chip8State, power_on, font, initial_memory, max_rom_len, MEMORY_SIZE, START_ADDRESS,
    FONT_START_ADDRESS, DISPLAY_WIDTH, DISPLAY_HEIGHT, DISPLAY_SIZE, FLAG_REGISTER, sprite_x,
    sprite_y, sprite_cols, sprite_rows, sprite_covers, sprite_flips,
    sprite_in_memory, sprite_row_address, sprite_drawn, display_cleared, timer_ticked,
    REGISTER_COUNT, NO_KEY, op_family, op_nn, op_n, op_x, op_y, fetch,
    advance, is_unknown, alu, misc, can_step, step, set_v, bcd_stored,
    registers_stored, registers_loaded, rgb24_frame, nonzero_words, transfer_in_memory,
};

verus! {

/// The registers, memory, display and stack of a CHIP-8 machine.
pub struct Chip8System {
    memory: [u8; 4096],
    display: [bool; 2048],
    address_register: u16,
    pc: u16,
    delay_timer: u8,
    sound_timer: u8,
    v: [u8; 16],
    stack: Vec<u16>,
}

impl View for Chip8System {
    type V = Chip8State;

    closed spec fn view(&self) -> Chip8State {
        Chip8State {
            memory: self.memory@,
            display: self.display@,
            i: self.address_register,
            pc: self.pc,
            delay_timer: self.delay_timer,
            sound_timer: self.sound_timer,
            v: self.v@,
            stack: self.stack@,
        }
    }
}

impl Chip8System {
    /// A machine at power-on with memory `mem`.
    pub fn new(mem: [u8; 4096]) -> (s: Self)
        ensures
            s@ == power_on(mem@),
            s@.wf(),
    {
        let s = Chip8System {
            memory: mem,
            display: [false; 2048],
            address_register: 0,
            pc: START_ADDRESS,
            delay_timer: 0,
            sound_timer: 0,
            v: [0; 16],
            stack: Vec::new(),
        };
        assert(s@.display =~= power_on(mem@).display);
        assert(s@.v =~= power_on(mem@).v);
        s
    }

    /// Memory, display and register file always have their fixed sizes.
    pub proof fn lemma_wf(&self)
        ensures
            self@.wf(),
    {
    }

    /// The program counter.
    pub fn pc(&self) -> (pc: u16)
        ensures
            pc == self@.pc,
    {
        self.pc
    }

    /// The address register `I`.
    pub fn address_register(&self) -> (i: u16)
        ensures
            i == self@.i,
    {
        self.address_register
    }

    /// Register `V[r]`.
    pub fn register(&self, r: usize) -> (val: u8)
        requires
            r < REGISTER_COUNT,
        ensures
            val == self@.v[r as int],
    {
        self.v[r]
    }

    /// The delay timer.
    pub fn delay_timer(&self) -> (t: u8)
        ensures
            t == self@.delay_timer,
    {
        self.delay_timer
    }

    /// The sound timer.
    pub fn sound_timer(&self) -> (t: u8)
        ensures
            t == self@.sound_timer,
    {
        self.sound_timer
    }

    /// The byte at memory address `addr`.
    pub fn memory_byte(&self, addr: usize) -> (b: u8)
        requires
            addr < MEMORY_SIZE,
        ensures
            b == self@.memory[addr as int],
    {
        self.memory[addr]
    }

    /// Whether the pixel in column `col` and row `row` is lit.
    pub fn pixel(&self, col: usize, row: usize) -> (lit: bool)
        requires
            col < DISPLAY_WIDTH,
            row < DISPLAY_HEIGHT,
        ensures
            lit == self@.display[col + row * DISPLAY_WIDTH],
    {
        proof {
            lemma_display_position(col as int, row as int);
        }
        self.display[col + row * DISPLAY_WIDTH]
    }

    /// The return addresses on the stack, the most recent last.
    pub fn stack(&self) -> (st: &[u16])
        ensures
            st@ == self@.stack,
    {
        self.stack.as_slice()
    }
}

fn font_values() -> (f: [u8; 80])
    ensures
        f@ == font(),
{
    let f: [u8; 80] = [
        0xF0, 0x90, 0x90, 0x90, 0xF0, // 0
        0x20, 0x60, 0x20, 0x20, 0x70, // 1
        0xF0, 0x10, 0xF0, 0x80, 0xF0, // 2
        0xF0, 0x10, 0xF0, 0x10, 0xF0, // 3
        0x90, 0x90, 0xF0, 0x10, 0x10, // 4
        0xF0, 0x80, 0xF0, 0x10, 0xF0, // 5
        0xF0, 0x80, 0xF0, 0x90, 0xF0, // 6
        0xF0, 0x10, 0x20, 0x40, 0x40, // 7
        0xF0, 0x90, 0xF0, 0x90, 0xF0, // 8
        0xF0, 0x90, 0xF0, 0x10, 0xF0, // 9
        0xF0, 0x90, 0xF0, 0x90, 0x90, // A
        0xE0, 0x90, 0xE0, 0x90, 0xE0, // B
        0xF0, 0x80, 0x80, 0x80, 0xF0, // C
        0xE0, 0x90, 0x90, 0x90, 0xE0, // D
        0xF0, 0x80, 0xF0, 0x80, 0xF0, // E
        0xF0, 0x80, 0xF0, 0x80, 0x80, // F
    ];
    assert(f@ =~= font());
    f
}

/// Position `col + row * DISPLAY_WIDTH` of the display has column `col` and row `row`.
proof fn lemma_display_position(col: int, row: int)
    requires
        0 <= col < DISPLAY_WIDTH as int,
        0 <= row < DISPLAY_HEIGHT as int,
    ensures
        0 <= col + row * (DISPLAY_WIDTH as int) < DISPLAY_SIZE as int,
        (col + row * DISPLAY_WIDTH as int) % DISPLAY_WIDTH as int == col,
        (col + row * DISPLAY_WIDTH as int) / DISPLAY_WIDTH as int == row,
{
    assert(0 <= col + row * 64 < 2048) by (nonlinear_arith)
        requires 0 <= col < 64, 0 <= row < 32;
    assert((col + row * 64) % 64 == col) by (nonlinear_arith)
        requires 0 <= col < 64, 0 <= row < 32;
    assert((col + row * 64) / 64 == row) by (nonlinear_arith)
        requires 0 <= col < 64, 0 <= row < 32;
}

/// Display position `p` lies under the part of the sprite that has been drawn
/// once rows before `y`, and the columns before `x` of row `y`, are done.
spec fn drawn_before(s: Chip8State, xr: int, yr: int, n: u8, p: int, y: int, x: int) -> bool {
    let col = p % DISPLAY_WIDTH as int - sprite_x(s, xr);
    let row = p / DISPLAY_WIDTH as int - sprite_y(s, yr);
    sprite_covers(s, xr, yr, n, p) && (row < y || (row == y && col < x))
}

/// A pixel among those drawn so far was on and has been turned off.
spec fn hit_before(s: Chip8State, xr: int, yr: int, n: u8, p: int, y: int, x: int) -> bool {
    drawn_before(s, xr, yr, n, p, y, x) && sprite_flips(s, xr, yr, n, p) && s.display[p]
}

/// The display with the pixels drawn so far flipped.
spec fn partly_drawn(s: Chip8State, xr: int, yr: int, n: u8, y: int, x: int) -> Seq<bool> {
    Seq::new(DISPLAY_SIZE as nat, |p: int|
        s.display[p] != (drawn_before(s, xr, yr, n, p, y, x) && sprite_flips(s, xr, yr, n, p)))
}

/// Draws a byte with `rand::rng().random_range(0..=255)`, from the
/// thread-local generator of the rand crate. The byte rests on chance, so no
/// clause states anything of it. (`rand::rng` panics if the system's random
/// source fails while the generator is first seeded; nothing here excludes
/// that.)
#[verifier::external_body]
fn random_byte() -> (b: u8) {
    let mut rng = rand::rng();
    rng.random_range(0..=255u8)
}

/// Why one more instruction cannot run.
pub enum StepFault {
    /// The program counter leaves no whole opcode inside memory.
    ProgramCounterOutOfMemory,
    /// A return (`00EE`) with an empty stack.
    StackUnderflow,
    /// A sprite (`DXYN`) would be read from outside memory.
    SpriteOutOfMemory,
    /// A memory transfer from `I` (`FX33`, `FX55`, `FX65`) would reach
    /// outside memory.
    TransferOutOfMemory,
}

/// The fault that stops the next instruction of `s`, if any.
pub open spec fn step_fault(s: Chip8State) -> Option<StepFault> {
    if !(s.pc as int + 1 < MEMORY_SIZE as int) {
        Some(StepFault::ProgramCounterOutOfMemory)
    } else if fetch(s) == 0x00EE && s.stack.len() == 0 {
        Some(StepFault::StackUnderflow)
    } else if op_family(fetch(s)) == 0xD && !sprite_in_memory(s, op_y(fetch(s)), op_n(fetch(s))) {
        Some(StepFault::SpriteOutOfMemory)
    } else if !transfer_in_memory(s, fetch(s)) {
        Some(StepFault::TransferOutOfMemory)
    } else {
        None
    }
}

/// A CHIP-8 interpreter.
pub struct Interpreter {
    chip8: Chip8System,
}

impl View for Interpreter {
    type V = Chip8State;

    closed spec fn view(&self) -> Chip8State {
        self.chip8@
    }
}

impl Interpreter {
    /// Memory, display and register file always have their fixed sizes.
    pub proof fn lemma_wf(&self)
        ensures
            self@.wf(),
    {
    }

    /// The machine the interpreter runs.
    pub fn system(&self) -> (sys: &Chip8System)
        ensures
            sys@ == self@,
    {
        &self.chip8
    }

    /// An interpreter at power-on with program `rom` loaded at `START_ADDRESS`
    /// and the font at `FONT_START_ADDRESS`.
    pub fn new(rom: &[u8]) -> (it: Self)
        requires
            rom@.len() <= max_rom_len(),
        ensures
            it@ == power_on(initial_memory(rom@)),
            it@.wf(),
    {
        let mut mem: [u8; 4096] = [0; 4096];
        let mut k: usize = 0;
        while k < rom.len()
            invariant
                k <= rom@.len() <= max_rom_len(),
                mem@.len() == MEMORY_SIZE,
                forall|a: int| 0 <= a < MEMORY_SIZE as int ==> #[trigger] mem@[a] == if START_ADDRESS as int <= a < START_ADDRESS as int + k { rom@[a - START_ADDRESS as int] } else { 0u8 },
            decreases rom@.len() - k,
        {
            mem[0x200 + k] = rom[k];
            k = k + 1;
        }
        let glyphs = font_values();
        let mut j: usize = 0;
        while j < 80
            invariant
                j <= 80,
                rom@.len() <= max_rom_len(),
                glyphs@ == font(),
                mem@.len() == MEMORY_SIZE,
                forall|a: int| 0 <= a < MEMORY_SIZE as int ==> #[trigger] mem@[a] ==
                    if FONT_START_ADDRESS as int <= a < FONT_START_ADDRESS as int + j {
                        font()[a - FONT_START_ADDRESS as int]
                    } else if START_ADDRESS as int <= a < START_ADDRESS as int + rom@.len() {
                        rom@[a - START_ADDRESS as int]
                    } else {
                        0u8
                    },
            decreases 80 - j,
        {
            mem[FONT_START_ADDRESS + j] = glyphs[j];
            j = j + 1;
        }
        assert(mem@ =~= initial_memory(rom@));
        Interpreter { chip8: Chip8System::new(mem) }
    }

    /// Turns every pixel of the display off.
    pub fn clear_display(&mut self)
        ensures
            final(self)@ == display_cleared(old(self)@),
            final(self)@.wf(),
    {
        self.chip8.display = [false; 2048];
        assert(self@.display =~= display_cleared(old(self)@).display);
    }

    /// XORs the `n`-row sprite stored from `I` onto the display at
    /// (`V[x_index]` mod 64, `V[y_index]` mod 32), clipped at the edges, and
    /// sets `VF` to 1 when a lit pixel is turned off, to 0 otherwise.
    pub fn draw_sprite(&mut self, x_index: u8, y_index: u8, n: u8)
        requires
            x_index < 16,
            y_index < 16,
            sprite_in_memory(old(self)@, y_index as int, n),
        ensures
            final(self)@ == sprite_drawn(old(self)@, x_index as int, y_index as int, n),
            final(self)@.wf(),
            final(self)@.v[FLAG_REGISTER as int] == if exists|p: int| 0 <= p < DISPLAY_SIZE as int
                && old(self)@.display[p] && !#[trigger] final(self)@.display[p] { 1u8 } else { 0u8 },
    {
        let ghost s0 = self@;
        let ghost xr = x_index as int;
        let ghost yr = y_index as int;
        let x_start: usize = (self.chip8.v[x_index as usize] as usize) % DISPLAY_WIDTH;
        let y_start: usize = (self.chip8.v[y_index as usize] as usize) % DISPLAY_HEIGHT;
        let rows: usize = if (n as usize) <= DISPLAY_HEIGHT - y_start {
            n as usize
        } else {
            DISPLAY_HEIGHT - y_start
        };
        let cols: usize = if 8 <= DISPLAY_WIDTH - x_start { 8 } else { DISPLAY_WIDTH - x_start };
        assert(x_start == sprite_x(s0, xr) && y_start == sprite_y(s0, yr));
        assert(rows == sprite_rows(s0, yr, n) && cols == sprite_cols(s0, xr));

        let mut collision: bool = false;
        let mut y: usize = 0;
        while y < rows
            invariant
                y <= rows,
                s0 == old(self)@,
                x_start == sprite_x(s0, xr),
                y_start == sprite_y(s0, yr),
                rows == sprite_rows(s0, yr, n),
                cols == sprite_cols(s0, xr),
                sprite_in_memory(s0, yr, n),
                self@ == (Chip8State { display: self@.display, ..s0 }),
                self@.display == partly_drawn(s0, xr, yr, n, y as int, 0),
                collision == exists|p: int| 0 <= p < DISPLAY_SIZE as int && #[trigger] hit_before(s0, xr, yr, n, p, y as int, 0),
            decreases rows - y,
        {
            assert(sprite_row_address(s0.i, y as int) < MEMORY_SIZE as int);
            let cur_byte: u8 = self.chip8.memory[self.chip8.address_register.wrapping_add(y as u16) as usize];
            assert(cur_byte == s0.memory[sprite_row_address(s0.i, y as int)]);
            let mut x: usize = 0;
            while x < cols
                invariant
                    x <= cols,
                    y < rows,
                    s0 == old(self)@,
                    x_start == sprite_x(s0, xr),
                    y_start == sprite_y(s0, yr),
                    rows == sprite_rows(s0, yr, n),
                    cols == sprite_cols(s0, xr),
                    cur_byte == s0.memory[sprite_row_address(s0.i, y as int)],
                    self@ == (Chip8State { display: self@.display, ..s0 }),
                    self@.display == partly_drawn(s0, xr, yr, n, y as int, x as int),
                    collision == exists|p: int| 0 <= p < DISPLAY_SIZE as int && #[trigger] hit_before(s0, xr, yr, n, p, y as int, x as int),
                decreases cols - x,
            {
                let cur_pos: usize = (x_start + x) + (y_start + y) * DISPLAY_WIDTH;
                proof {
                    lemma_display_position((x_start + x) as int, (y_start + y) as int);
                }
                let ghost p0 = cur_pos as int;
                let cur_pixel_state: bool = self.chip8.display[cur_pos];
                let next_pixel: u8 = (cur_byte >> ((7 - x) as u8)) & 1u8;
                assert(sprite_covers(s0, xr, yr, n, p0));
                assert(sprite_flips(s0, xr, yr, n, p0) == (next_pixel == 1u8));
                assert(cur_pixel_state == s0.display[p0]);
                if cur_pixel_state && next_pixel == 1 {
                    collision = true;
                }
                self.chip8.display[cur_pos] = cur_pixel_state != (next_pixel == 1);
                proof {
                    assert forall|p: int| 0 <= p < DISPLAY_SIZE as int implies
                        drawn_before(s0, xr, yr, n, p, y as int, x + 1) ==
                        (drawn_before(s0, xr, yr, n, p, y as int, x as int) || p == p0) by {
                        if p % DISPLAY_WIDTH as int == p0 % DISPLAY_WIDTH as int && p / DISPLAY_WIDTH as int == p0 / DISPLAY_WIDTH as int {
                            assert(p == p0);
                        }
                    }
                    assert(self@.display =~= partly_drawn(s0, xr, yr, n, y as int, x + 1));
                    if collision {
                        if cur_pixel_state && next_pixel == 1 {
                            assert(hit_before(s0, xr, yr, n, p0, y as int, x + 1));
                        } else {
                            let w = choose|p: int| 0 <= p < DISPLAY_SIZE as int && #[trigger] hit_before(s0, xr, yr, n, p, y as int, x as int);
                            assert(hit_before(s0, xr, yr, n, w, y as int, x + 1));
                        }
                    } else {
                        assert forall|p: int| 0 <= p < DISPLAY_SIZE as int implies !#[trigger] hit_before(s0, xr, yr, n, p, y as int, x + 1) by {
                            if p != p0 {
                                assert(!hit_before(s0, xr, yr, n, p, y as int, x as int));
                            }
                        }
                    }
                }
                x = x + 1;
            }
            proof {
                assert forall|p: int| 0 <= p < DISPLAY_SIZE as int implies
                    drawn_before(s0, xr, yr, n, p, y as int, cols as int) ==
                    drawn_before(s0, xr, yr, n, p, y + 1, 0) by {}
                assert(self@.display =~= partly_drawn(s0, xr, yr, n, y + 1, 0));
                if collision {
                    let w = choose|p: int| 0 <= p < DISPLAY_SIZE as int && #[trigger] hit_before(s0, xr, yr, n, p, y as int, cols as int);
                    assert(hit_before(s0, xr, yr, n, w, y + 1, 0));
                } else {
                    assert forall|p: int| 0 <= p < DISPLAY_SIZE as int implies !#[trigger] hit_before(s0, xr, yr, n, p, y + 1, 0) by {
                        assert(!hit_before(s0, xr, yr, n, p, y as int, cols as int));
                    }
                }
            }
            y = y + 1;
        }
        proof {
            assert forall|p: int| 0 <= p < DISPLAY_SIZE as int implies
                drawn_before(s0, xr, yr, n, p, rows as int, 0) == sprite_covers(s0, xr, yr, n, p) by {}
            assert(self@.display =~= sprite_drawn(s0, xr, yr, n).display);
            if collision {
                let w = choose|p: int| 0 <= p < DISPLAY_SIZE as int && #[trigger] hit_before(s0, xr, yr, n, p, rows as int, 0);
                assert(sprite_flips(s0, xr, yr, n, w) && s0.display[w]);
            } else {
                assert forall|p: int| 0 <= p < DISPLAY_SIZE as int implies !(#[trigger] sprite_flips(s0, xr, yr, n, p) && s0.display[p]) by {
                    assert(!hit_before(s0, xr, yr, n, p, rows as int, 0));
                }
            }
        }
        self.chip8.v[FLAG_REGISTER] = if collision { 1 } else { 0 };
        assert(self@.v =~= sprite_drawn(s0, xr, yr, n).v);
        proof {
            lemma_sprite_law(s0, xr, yr, n);
        }
    }

    /// The keypad key of the first held keyboard key that stands for one, or
    /// `NO_KEY`; `pressed` lists the scancodes of the held keys in increasing
    /// order.
    pub fn decode_keycode(&self, pressed: &[i32]) -> (key: u8)
        ensures
            key == first_key(pressed@),
            key <= NO_KEY,
    {
        let mut k: usize = 0;
        assert(pressed@.skip(0) =~= pressed@);
        while k < pressed.len()
            invariant
                k <= pressed@.len(),
                first_key(pressed@) == first_key(pressed@.skip(k as int)),
            decreases pressed@.len() - k,
        {
            let matched = key_of_scancode(pressed[k]);
            if matched <= 0xF {
                assert(pressed@.skip(k as int)[0] == pressed@[k as int]);
                return matched;
            }
            proof {
                lemma_first_key_skip(pressed@, k as int);
            }
            k = k + 1;
        }
        assert(pressed@.skip(k as int).len() == 0);
        NO_KEY
    }

    /// The opcode at the program counter.
    pub fn current_opcode(&self) -> (op: u16)
        requires
            self@.pc as int + 1 < MEMORY_SIZE as int,
        ensures
            op == fetch(self@),
    {
        let hi: u8 = self.chip8.memory[self.chip8.pc as usize];
        let lo: u8 = self.chip8.memory[self.chip8.pc as usize + 1];
        let op: u16 = ((hi as u16) << 8u16) | (lo as u16);
        assert(((hi as u16) << 8u16) | (lo as u16) == (hi as u16) * 256 + (lo as u16)) by (bit_vector);
        op
    }

    /// Why the next instruction cannot run, or `None` when it can.
    pub fn fault(&self) -> (f: Option<StepFault>)
        ensures
            f == step_fault(self@),
            f is None <==> can_step(self@),
    {
        if self.chip8.pc >= 4095 {
            return Some(StepFault::ProgramCounterOutOfMemory);
        }
        let op = self.current_opcode();
        if op == 0x00EE && self.chip8.stack.len() == 0 {
            return Some(StepFault::StackUnderflow);
        }
        assert((op >> 12u16) == op / 0x1000) by (bit_vector);
        if (op >> 12u16) == 0xD {
            assert(((op & 0x00F0) >> 4u16) == (op / 0x10) % 0x10) by (bit_vector);
            assert((op & 0x000F) == op % 0x10) by (bit_vector);
            let y_index: usize = ((op & 0x00F0) >> 4u16) as usize;
            let n: u8 = (op & 0x000F) as u8;
            let y_start: usize = (self.chip8.v[y_index] as usize) % DISPLAY_HEIGHT;
            let rows: usize = if (n as usize) <= DISPLAY_HEIGHT - y_start {
                n as usize
            } else {
                DISPLAY_HEIGHT - y_start
            };
            let ghost yr = op_y(op);
            assert(rows == sprite_rows(self@, yr, op_n(op)));
            let mut row: usize = 0;
            while row < rows
                invariant
                    row <= rows,
                    rows == sprite_rows(self@, yr, op_n(op)),
                    self@.pc as int + 1 < MEMORY_SIZE as int,
                    op == fetch(self@),
                    op_family(op) == 0xD,
                    yr == op_y(op),
                    forall|r: int| 0 <= r < row ==> #[trigger] sprite_row_address(self@.i, r) < MEMORY_SIZE as int,
                decreases rows - row,
            {
                if self.chip8.address_register.wrapping_add(row as u16) as usize >= MEMORY_SIZE {
                    assert(!(sprite_row_address(self@.i, row as int) < MEMORY_SIZE as int));
                    return Some(StepFault::SpriteOutOfMemory);
                }
                row = row + 1;
            }
        }
        if (op >> 12u16) == 0xF {
            assert((op & 0x00FF) == op % 0x100) by (bit_vector);
            assert(((op & 0x0F00) >> 8u16) == (op / 0x100) % 0x10) by (bit_vector);
            let nn: u16 = op & 0x00FF;
            let x: usize = ((op & 0x0F00) >> 8u16) as usize;
            let i: usize = self.chip8.address_register as usize;
            if nn == 0x33 && i + 2 >= MEMORY_SIZE {
                return Some(StepFault::TransferOutOfMemory);
            }
            if (nn == 0x55 || nn == 0x65) && i + x >= MEMORY_SIZE {
                return Some(StepFault::TransferOutOfMemory);
            }
        }
        None
    }

    /// `8XYk`: register arithmetic and logic.
    fn execute_alu(&mut self, x: usize, y: usize, k: u8) -> (unknown: bool)
        requires
            x < 16,
            y < 16,
        ensures
            final(self)@ == alu(old(self)@, x as int, y as int, k),
            unknown == !(k <= 0x7 || k == 0xE),
    {
        let ghost s = self@;
        let vx = self.chip8.v[x];
        let vy = self.chip8.v[y];
        match k {
            0x0 => {
                self.chip8.v[x] = vy;
            },
            0x1 => {
                self.chip8.v[x] = vx | vy;
            },
            0x2 => {
                self.chip8.v[x] = vx & vy;
            },
            0x3 => {
                self.chip8.v[x] = vx ^ vy;
            },
            0x4 => {
                let sum = vx.wrapping_add(vy);
                self.chip8.v[FLAG_REGISTER] = if sum < vx { 1 } else { 0 };
                self.chip8.v[x] = sum;
            },
            0x5 => {
                let dif = vx.wrapping_sub(vy);
                self.chip8.v[FLAG_REGISTER] = if vy > vx { 0 } else { 1 };
                self.chip8.v[x] = dif;
            },
            0x6 => {
                let ls_bit = vx & 0b1;
                self.chip8.v[FLAG_REGISTER] = ls_bit;
                self.chip8.v[x] = self.chip8.v[x] >> 1u8;
            },
            0x7 => {
                let dif = vy.wrapping_sub(vx);
                self.chip8.v[FLAG_REGISTER] = if vx > vy { 0 } else { 1 };
                self.chip8.v[x] = dif;
            },
            0xE => {
                self.chip8.v[FLAG_REGISTER] = (vx >> 7u8) & 1;
                self.chip8.v[x] = self.chip8.v[x] << 1u8;
            },
            _ => {
                return true;
            },
        }
        assert(self@.v =~= alu(s, x as int, y as int, k).v);
        false
    }

    /// `FXkk`: timers, keypad, index register and memory transfers.
    fn execute_misc(&mut self, op: u16, x: usize, pressed: &[i32]) -> (unknown: bool)
        requires
            op_family(op) == 0xF,
            x as int == op_x(op),
            old(self)@.pc >= 2,
            transfer_in_memory(old(self)@, op),
        ensures
            final(self)@ == misc(old(self)@, op, first_key(pressed@)),
            unknown == !(op_nn(op) == 0x07 || op_nn(op) == 0x0A || op_nn(op) == 0x15
                || op_nn(op) == 0x18 || op_nn(op) == 0x1E || op_nn(op) == 0x29
                || op_nn(op) == 0x33 || op_nn(op) == 0x55 || op_nn(op) == 0x65),
    {
        let ghost s = self@;
        let nn: u8 = (op & 0x00FF) as u8;
        let addr: usize = self.chip8.address_register as usize;
        assert((op & 0x00FF) == op % 0x100) by (bit_vector);
        match nn {
            0x07 => {
                self.chip8.v[x] = self.chip8.delay_timer;
                assert(self@.v =~= set_v(s, x as int, s.delay_timer).v);
            },
            0x0A => {
                let key = self.decode_keycode(pressed);
                if key <= 0xF {
                    self.chip8.v[x] = key;
                    assert(self@.v =~= set_v(s, x as int, key).v);
                } else {
                    self.chip8.pc = self.chip8.pc - 2;
                }
            },
            0x15 => {
                self.chip8.delay_timer = self.chip8.v[x];
            },
            0x18 => {
                self.chip8.sound_timer = self.chip8.v[x];
            },
            0x1E => {
                self.chip8.address_register = self.chip8.address_register.wrapping_add(self.chip8.v[x] as u16);
            },
            0x29 => {
                self.chip8.address_register = (FONT_START_ADDRESS + (self.chip8.v[x] as usize * 5)) as u16;
            },
            0x33 => {
                let vx = self.chip8.v[x];
                self.chip8.memory[addr] = vx / 100;
                self.chip8.memory[addr + 1] = (vx % 100) / 10;
                self.chip8.memory[addr + 2] = vx % 10;
                assert(self@.memory =~= bcd_stored(s.memory, addr as int, vx));
            },
            0x55 => {
                let mut r: usize = 0;
                while r <= x
                    invariant
                        r <= x + 1,
                        x < 16,
                        addr + x < MEMORY_SIZE,
                        s == old(self)@,
                        self@ == (Chip8State { memory: self@.memory, ..s }),
                        self@.memory.len() == MEMORY_SIZE,
                        forall|a: int| 0 <= a < MEMORY_SIZE as int ==> #[trigger] self@.memory[a] ==
                            if addr <= a < addr + r { s.v[a - addr] } else { s.memory[a] },
                    decreases x + 1 - r,
                {
                    self.chip8.memory[addr + r] = self.chip8.v[r];
                    r = r + 1;
                }
                assert(self@.memory =~= registers_stored(s.memory, addr as int, s.v, x as int));
            },
            0x65 => {
                let mut r: usize = 0;
                while r <= x
                    invariant
                        r <= x + 1,
                        x < 16,
                        addr + x < MEMORY_SIZE,
                        s == old(self)@,
                        self@ == (Chip8State { v: self@.v, ..s }),
                        self@.v.len() == REGISTER_COUNT,
                        forall|q: int| 0 <= q < REGISTER_COUNT as int ==> #[trigger] self@.v[q] ==
                            if q < r { s.memory[addr + q] } else { s.v[q] },
                    decreases x + 1 - r,
                {
                    self.chip8.v[r] = self.chip8.memory[addr + r];
                    r = r + 1;
                }
                assert(self@.v =~= registers_loaded(s.v, addr as int, s.memory, x as int));
            },
            _ => {
                return true;
            },
        }
        false
    }

    /// Runs one instruction with `key` taken from `pressed` and `random` as
    /// the random byte of `CXNN`; returns the opcode when it is unknown.
    pub fn step_with(&mut self, pressed: &[i32], random: u8) -> (unknown: Option<u16>)
        requires
            can_step(old(self)@),
        ensures
            final(self)@ == step(old(self)@, first_key(pressed@), random),
            final(self)@.wf(),
            unknown == (if is_unknown(fetch(old(self)@)) { Some(fetch(old(self)@)) } else { None }),
    {
        let ghost s0 = self@;
        let op: u16 = self.current_opcode();
        let nnn: u16 = op & 0x0FFF;
        let nn: u8 = (op & 0x00FF) as u8;
        let n: u8 = (op & 0x000F) as u8;
        let x: usize = ((op & 0x0F00) >> 8u16) as usize;
        let y: usize = ((op & 0x00F0) >> 4u16) as usize;
        let family: u16 = op >> 12u16;
        assert((op & 0x0FFF) == op % 0x1000) by (bit_vector);
        assert((op & 0x00FF) == op % 0x100) by (bit_vector);
        assert((op & 0x000F) == op % 0x10) by (bit_vector);
        assert(((op & 0x0F00) >> 8u16) == (op / 0x100) % 0x10) by (bit_vector);
        assert(((op & 0x00F0) >> 4u16) == (op / 0x10) % 0x10) by (bit_vector);
        assert((op >> 12u16) == op / 0x1000) by (bit_vector);

        self.chip8.pc = self.chip8.pc + 2;
        let ghost s = self@;
        assert(s == advance(s0));

        let mut unknown = false;
        match family {
            0x0 => {
                if nnn == 0x0E0 {
                    self.clear_display();
                } else if nnn == 0x0EE {
                    assert(op == 0x00EE);
                    let addr = self.chip8.stack.pop().unwrap();
                    self.chip8.pc = addr;
                } else {
                    unknown = true;
                }
            },
            0x1 => {
                self.chip8.pc = nnn;
            },
            0x2 => {
                self.chip8.stack.push(self.chip8.pc);
                self.chip8.pc = nnn;
            },
            0x3 => {
                if self.chip8.v[x] == nn {
                    self.chip8.pc = self.chip8.pc + 2;
                }
            },
            0x4 => {
                if self.chip8.v[x] != nn {
                    self.chip8.pc = self.chip8.pc + 2;
                }
            },
            0x5 => {
                if n == 0 && self.chip8.v[x] == self.chip8.v[y] {
                    self.chip8.pc = self.chip8.pc + 2;
                }
            },
            0x6 => {
                self.chip8.v[x] = nn;
                assert(self@.v =~= set_v(s, x as int, nn).v);
            },
            0x7 => {
                self.chip8.v[x] = self.chip8.v[x].wrapping_add(nn);
                assert(self@.v =~= set_v(s, x as int, ((s.v[x as int] as int + nn as int) % 256) as u8).v);
            },
            0x8 => {
                unknown = self.execute_alu(x, y, n);
            },
            0x9 => {
                if n == 0 && self.chip8.v[x] != self.chip8.v[y] {
                    self.chip8.pc = self.chip8.pc + 2;
                }
            },
            0xA => {
                self.chip8.address_register = nnn;
            },
            0xB => {
                self.chip8.pc = (self.chip8.v[0] as u16) + nnn;
            },
            0xC => {
                self.chip8.v[x] = random & nn;
                assert(self@.v =~= set_v(s, x as int, random & nn).v);
            },
            0xD => {
                self.draw_sprite(x as u8, y as u8, n);
            },
            0xF => {
                unknown = self.execute_misc(op, x, pressed);
            },
            _ => {
                unknown = true;
            },
        }
        if unknown { Some(op) } else { None }
    }

    /// Runs one instruction: fetches the opcode at the program counter,
    /// moves past it and executes it. `pressed` lists the scancodes of the
    /// held keyboard keys in increasing order; `CXNN` draws its random byte
    /// from the rand crate. Returns the opcode when it is unknown (the
    /// instruction then does nothing but move past it).
    pub fn next_instruction(&mut self, pressed: &[i32]) -> (unknown: Option<u16>)
        requires
            can_step(old(self)@),
        ensures
            exists|r: u8| final(self)@ == step(old(self)@, first_key(pressed@), r),
            final(self)@.wf(),
            op_family(fetch(old(self)@)) != 0xC ==> final(self)@ == step(old(self)@, first_key(pressed@), 0),
            unknown == (if is_unknown(fetch(old(self)@)) { Some(fetch(old(self)@)) } else { None }),
    {
        let op = self.current_opcode();
        assert((op >> 12u16) == op / 0x1000) by (bit_vector);
        let random: u8 = if (op >> 12u16) == 0xC { random_byte() } else { 0 };
        let unknown = self.step_with(pressed, random);
        unknown
    }

    /// The display as 24-bit RGB pixels, row by row: three bytes of 255 for a
    /// lit pixel, three bytes of 0 for a dark one.
    pub fn frame_rgb24(&self) -> (data: [u8; 6144])
        ensures
            data@ == rgb24_frame(self@.display),
            data@.len() == 3 * DISPLAY_SIZE,
            forall|p: int, c: int| 0 <= p < DISPLAY_SIZE as int && 0 <= c < 3 ==>
                #[trigger] data@[3 * p + c] == if self@.display[p] { 255u8 } else { 0u8 },
    {
        let mut data: [u8; 6144] = [0u8; 6144];
        let mut i: usize = 0;
        while i < DISPLAY_SIZE
            invariant
                i <= DISPLAY_SIZE,
                data@.len() == 3 * DISPLAY_SIZE,
                self@.display.len() == DISPLAY_SIZE,
                forall|k: int| 0 <= k < 3 * DISPLAY_SIZE as int ==> #[trigger] data@[k] ==
                    if k < 3 * i && self@.display[k / 3] { 255u8 } else { 0u8 },
            decreases DISPLAY_SIZE - i,
        {
            let offset: usize = i * 3;
            if self.chip8.display[i] {
                data[offset] = 255;
                data[offset + 1] = 255;
                data[offset + 2] = 255;
            } else {
                data[offset] = 0;
                data[offset + 1] = 0;
                data[offset + 2] = 0;
            }
            i = i + 1;
        }
        assert(data@ =~= rgb24_frame(self@.display));
        proof {
            lemma_frame_law(self@.display);
        }
        data
    }

    /// The words of memory that are not zero, as (address, first byte,
    /// second byte), by increasing even address.
    pub fn dump_memory(&self) -> (words: Vec<(usize, u8, u8)>)
        ensures
            words@ == nonzero_words(self@.memory, (MEMORY_SIZE / 2) as nat),
    {
        let mut words: Vec<(usize, u8, u8)> = Vec::new();
        let mut i: usize = 0;
        while i < MEMORY_SIZE
            invariant
                i <= MEMORY_SIZE,
                i % 2 == 0,
                self@.memory.len() == MEMORY_SIZE,
                words@ == nonzero_words(self@.memory, (i / 2) as nat),
            decreases MEMORY_SIZE - i,
        {
            let hi = self.chip8.memory[i];
            let lo = self.chip8.memory[i + 1];
            if !(hi == 0 && lo == 0) {
                words.push((i, hi, lo));
            }
            assert(((i + 2) / 2) as nat - 1 == (i / 2) as nat);
            i = i + 2;
        }
        words
    }

    /// Counts both timers down by one; a timer at zero wraps to 255.
    pub fn dec_timers(&mut self)
        ensures
            final(self)@.wf(),
            final(self)@ == (Chip8State {
                delay_timer: timer_ticked(old(self)@.delay_timer),
                sound_timer: timer_ticked(old(self)@.sound_timer),
                ..old(self)@
            }),
    {
        if self.chip8.delay_timer > 0 {
            self.chip8.delay_timer = self.chip8.delay_timer - 1;
        } else {
            self.chip8.delay_timer = 255;
        }
        if self.chip8.sound_timer > 0 {
            self.chip8.sound_timer = self.chip8.sound_timer - 1;
        } else {
            self.chip8.sound_timer = 255;
        }
    }
}

} // verus!
