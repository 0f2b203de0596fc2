use chip8::chip8::{Chip8System, Interpreter, StepFault};
use chip8::keypad::{key_of_scancode, SCANCODE_1, SCANCODE_A, SCANCODE_V};
use chip8::window::WindowSpecs;

const FONT: [u8; 80] = [
    0xF0, 0x90, 0x90, 0x90, 0xF0, 0x20, 0x60, 0x20, 0x20, 0x70, 0xF0, 0x10, 0xF0, 0x80, 0xF0,
    0xF0, 0x10, 0xF0, 0x10, 0xF0, 0x90, 0x90, 0xF0, 0x10, 0x10, 0xF0, 0x80, 0xF0, 0x10, 0xF0,
    0xF0, 0x80, 0xF0, 0x90, 0xF0, 0xF0, 0x10, 0x20, 0x40, 0x40, 0xF0, 0x90, 0xF0, 0x90, 0xF0,
    0xF0, 0x90, 0xF0, 0x10, 0xF0, 0xF0, 0x90, 0xF0, 0x90, 0x90, 0xE0, 0x90, 0xE0, 0x90, 0xE0,
    0xF0, 0x80, 0x80, 0x80, 0xF0, 0xE0, 0x90, 0x90, 0x90, 0xE0, 0xF0, 0x80, 0xF0, 0x80, 0xF0,
    0xF0, 0x80, 0xF0, 0x80, 0x80,
];

/// Builds a program from opcodes.
fn program(ops: &[u16]) -> Vec<u8> {
    let mut rom = Vec::new();
    for op in ops {
        rom.push((op >> 8) as u8);
        rom.push((op & 0xFF) as u8);
    }
    rom
}

/// Runs `count` instructions with no key held, checking none is unknown.
fn run(it: &mut Interpreter, count: usize) {
    for _ in 0..count {
        assert!(it.fault().is_none());
        assert_eq!(it.step_with(&[], 0), None);
    }
}

fn reg(it: &Interpreter, r: usize) -> u8 {
    it.system().register(r)
}

#[test]
fn new_loads_program_and_font() {
    let rom = [0x12u8, 0x34, 0x56];
    let it = Interpreter::new(&rom);
    let sys = it.system();
    assert_eq!(sys.pc(), 0x200);
    assert_eq!(sys.address_register(), 0);
    assert_eq!(sys.memory_byte(0x200), 0x12);
    assert_eq!(sys.memory_byte(0x201), 0x34);
    assert_eq!(sys.memory_byte(0x202), 0x56);
    assert_eq!(sys.memory_byte(0x203), 0);
    for (k, b) in FONT.iter().enumerate() {
        assert_eq!(sys.memory_byte(0x50 + k), *b);
    }
    assert_eq!(sys.memory_byte(0x4F), 0);
    assert_eq!(sys.memory_byte(0xA0), 0);
    for r in 0..16 {
        assert_eq!(sys.register(r), 0);
    }
    assert_eq!(sys.delay_timer(), 0);
    assert_eq!(sys.sound_timer(), 0);
    assert!(sys.stack().is_empty());
    assert_eq!(it.current_opcode(), 0x1234);
}

#[test]
fn new_accepts_largest_program() {
    let rom = vec![0xABu8; 4096 - 0x200];
    let it = Interpreter::new(&rom);
    assert_eq!(it.system().memory_byte(0xFFF), 0xAB);
    assert_eq!(it.system().memory_byte(0x200), 0xAB);
}

#[test]
fn chip8_system_new_powers_on() {
    let mut mem = [0u8; 4096];
    mem[0x200] = 0x60;
    mem[0xFFF] = 7;
    let sys = Chip8System::new(mem);
    assert_eq!(sys.pc(), 0x200);
    assert_eq!(sys.memory_byte(0x200), 0x60);
    assert_eq!(sys.memory_byte(0xFFF), 7);
    assert_eq!(sys.address_register(), 0);
    for col in 0..64 {
        for row in 0..32 {
            assert!(!sys.pixel(col, row));
        }
    }
}

#[test]
fn window_specs_new_keeps_fields() {
    let specs = WindowSpecs::new("Title".to_string(), 640, 320, true, false);
    assert_eq!(specs.name(), "Title");
    assert_eq!(specs.width(), 640);
    assert_eq!(specs.height(), 320);
    assert!(specs.centered());
    assert!(!specs.fullscreen());
}

#[test]
fn load_and_add_immediate() {
    // V3 = 0x20; V3 += 0x05; V4 = 0xFF; V4 += 0x02 (wraps)
    let mut it = Interpreter::new(&program(&[0x6320, 0x7305, 0x64FF, 0x7402]));
    run(&mut it, 4);
    assert_eq!(reg(&it, 3), 0x25);
    assert_eq!(reg(&it, 4), 0x01);
    assert_eq!(reg(&it, 0xF), 0, "7XNN leaves VF alone");
    assert_eq!(it.system().pc(), 0x208);
}

#[test]
fn add_with_carry() {
    let mut it = Interpreter::new(&program(&[0x60C8, 0x6164, 0x8014, 0x6205, 0x6306, 0x8234]));
    run(&mut it, 3);
    assert_eq!(reg(&it, 0), 44);
    assert_eq!(reg(&it, 0xF), 1);
    run(&mut it, 3);
    assert_eq!(reg(&it, 2), 11);
    assert_eq!(reg(&it, 0xF), 0);
}

#[test]
fn subtract_with_borrow() {
    let mut it = Interpreter::new(&program(&[0x600A, 0x6103, 0x8015, 0x6203, 0x630A, 0x8235]));
    run(&mut it, 3);
    assert_eq!(reg(&it, 0), 7);
    assert_eq!(reg(&it, 0xF), 1);
    run(&mut it, 3);
    assert_eq!(reg(&it, 2), 249);
    assert_eq!(reg(&it, 0xF), 0);
}

#[test]
fn reverse_subtract() {
    let mut it = Interpreter::new(&program(&[0x6003, 0x610A, 0x8017, 0x6205, 0x6301, 0x8237]));
    run(&mut it, 3);
    assert_eq!(reg(&it, 0), 7);
    assert_eq!(reg(&it, 0xF), 1);
    run(&mut it, 3);
    assert_eq!(reg(&it, 2), 252);
    assert_eq!(reg(&it, 0xF), 0);
}

#[test]
fn logic_operations() {
    let mut it = Interpreter::new(&program(&[
        0x60F0, 0x613C, 0x8011, // V0 = F0 | 3C
        0x62F0, 0x8212,         // V2 = F0 & 3C
        0x63F0, 0x8313,         // V3 = F0 ^ 3C
        0x6477, 0x8410,         // V4 = V1
    ]));
    run(&mut it, 9);
    assert_eq!(reg(&it, 0), 0xFC);
    assert_eq!(reg(&it, 2), 0x30);
    assert_eq!(reg(&it, 3), 0xCC);
    assert_eq!(reg(&it, 4), 0x3C);
}

#[test]
fn shifts_set_flag() {
    let mut it = Interpreter::new(&program(&[0x6085, 0x8006, 0x6181, 0x811E]));
    run(&mut it, 2);
    assert_eq!(reg(&it, 0), 0x42);
    assert_eq!(reg(&it, 0xF), 1);
    run(&mut it, 2);
    assert_eq!(reg(&it, 1), 0x02);
    assert_eq!(reg(&it, 0xF), 1);
}

#[test]
fn shift_of_flag_register_overwrites_flag() {
    // VF = 3; VF >>= 1: VF first receives the low bit (1), which is then shifted.
    let mut it = Interpreter::new(&program(&[0x6F03, 0x8F06, 0x6F81, 0x8F0E]));
    run(&mut it, 2);
    assert_eq!(reg(&it, 0xF), 0);
    run(&mut it, 2);
    assert_eq!(reg(&it, 0xF), 2);
}

#[test]
fn skips() {
    // 3XNN taken, 4XNN not taken, 5XY0 taken, 9XY0 not taken
    let mut it = Interpreter::new(&program(&[0x6007, 0x6107, 0x3007]));
    run(&mut it, 3);
    assert_eq!(it.system().pc(), 0x208);
    let mut it = Interpreter::new(&program(&[0x6007, 0x4007]));
    run(&mut it, 2);
    assert_eq!(it.system().pc(), 0x204);
    let mut it = Interpreter::new(&program(&[0x6007, 0x6107, 0x5010]));
    run(&mut it, 3);
    assert_eq!(it.system().pc(), 0x208);
    let mut it = Interpreter::new(&program(&[0x6007, 0x6107, 0x9010]));
    run(&mut it, 3);
    assert_eq!(it.system().pc(), 0x206);
    let mut it = Interpreter::new(&program(&[0x6007, 0x6108, 0x9010]));
    run(&mut it, 3);
    assert_eq!(it.system().pc(), 0x208);
    // 5XY1 is not 5XY0: no skip
    let mut it = Interpreter::new(&program(&[0x5011]));
    run(&mut it, 1);
    assert_eq!(it.system().pc(), 0x202);
}

#[test]
fn jumps() {
    let mut it = Interpreter::new(&program(&[0x1ABC]));
    run(&mut it, 1);
    assert_eq!(it.system().pc(), 0xABC);
    let mut it = Interpreter::new(&program(&[0x6010, 0xB300]));
    run(&mut it, 2);
    assert_eq!(it.system().pc(), 0x310);
}

#[test]
fn call_then_return() {
    // 0x200: call 0x206; 0x202: V0 = 1; 0x204: jump 0x204; 0x206: return
    let mut it = Interpreter::new(&program(&[0x2206, 0x6001, 0x1204, 0x00EE]));
    run(&mut it, 1);
    assert_eq!(it.system().pc(), 0x206);
    assert_eq!(it.system().stack(), &[0x202]);
    run(&mut it, 1);
    assert_eq!(it.system().pc(), 0x202);
    assert!(it.system().stack().is_empty());
    run(&mut it, 1);
    assert_eq!(reg(&it, 0), 1);
}

#[test]
fn index_register_instructions() {
    let mut it = Interpreter::new(&program(&[0xA123, 0x6010, 0xF01E, 0x6107, 0xF129]));
    run(&mut it, 3);
    assert_eq!(it.system().address_register(), 0x133);
    run(&mut it, 2);
    assert_eq!(it.system().address_register(), 0x50 + 7 * 5);
}

#[test]
fn index_register_add_wraps() {
    // I = 0xFFF; add 0xFF sixteen times... use a loop body: F01E with V0 = 0xFF
    let mut ops = vec![0xAFFF, 0x60FF];
    for _ in 0..258 {
        ops.push(0xF01E);
    }
    let mut it = Interpreter::new(&program(&ops));
    run(&mut it, 2 + 258);
    assert_eq!(it.system().address_register(), ((0xFFFu32 + 258 * 0xFF) % 0x10000) as u16);
}

#[test]
fn timers() {
    let mut it = Interpreter::new(&program(&[0x6009, 0xF015, 0x6104, 0xF118, 0xF207]));
    run(&mut it, 5);
    assert_eq!(it.system().delay_timer(), 9);
    assert_eq!(it.system().sound_timer(), 4);
    assert_eq!(reg(&it, 2), 9);
    it.dec_timers();
    assert_eq!(it.system().delay_timer(), 8);
    assert_eq!(it.system().sound_timer(), 3);
}

#[test]
fn dec_timers_wraps_at_zero() {
    let mut it = Interpreter::new(&[]);
    it.dec_timers();
    assert_eq!(it.system().delay_timer(), 255);
    assert_eq!(it.system().sound_timer(), 255);
    for _ in 0..255 {
        it.dec_timers();
    }
    assert_eq!(it.system().delay_timer(), 0);
    assert_eq!(it.system().sound_timer(), 0);
}

#[test]
fn bcd_is_stored_from_the_address_register() {
    // I = 0x300; V0 = 123; F033 stores 1, 2, 3 at 0x300..0x303.
    let mut it = Interpreter::new(&program(&[0xA300, 0x607B, 0xF033]));
    run(&mut it, 3);
    assert_eq!(it.system().memory_byte(0x300), 1);
    assert_eq!(it.system().memory_byte(0x301), 2);
    assert_eq!(it.system().memory_byte(0x302), 3);
    assert_eq!(it.system().memory_byte(0x303), 0);
    assert_eq!(it.system().memory_byte(0x233), 0);
    assert_eq!(it.system().address_register(), 0x300);
    // V2 = 234 at I = 0xFFD, the last address that fits.
    let mut it = Interpreter::new(&program(&[0xAFFD, 0x62EA, 0xF233]));
    run(&mut it, 3);
    assert_eq!(it.system().memory_byte(0xFFD), 2);
    assert_eq!(it.system().memory_byte(0xFFE), 3);
    assert_eq!(it.system().memory_byte(0xFFF), 4);
}

#[test]
fn register_store_and_load_use_the_address_register() {
    // V0..V3 = 7, 2, 3, 9; I = 0x300; F255 stores V0..V2 from 0x300.
    let mut it = Interpreter::new(&program(&[0x6007, 0x6102, 0x6203, 0x6309, 0xA300, 0xF255]));
    run(&mut it, 6);
    assert_eq!(it.system().memory_byte(0x300), 7);
    assert_eq!(it.system().memory_byte(0x301), 2);
    assert_eq!(it.system().memory_byte(0x302), 3);
    assert_eq!(it.system().memory_byte(0x303), 0);
    assert_eq!(it.system().address_register(), 0x300);
    // then clear V0..V3 and load V0..V2 back: V3 stays cleared.
    let mut it = Interpreter::new(&program(&[
        0x6007, 0x6102, 0x6203, 0x6309, 0xA300, 0xF255, 0x6000, 0x6100, 0x6200, 0x6300, 0xF265,
    ]));
    run(&mut it, 11);
    assert_eq!(reg(&it, 0), 7);
    assert_eq!(reg(&it, 1), 2);
    assert_eq!(reg(&it, 2), 3);
    assert_eq!(reg(&it, 3), 0);
    // F165 from I = 0x200 loads the program's own first bytes.
    let mut it = Interpreter::new(&program(&[0xA200, 0xF165]));
    run(&mut it, 2);
    assert_eq!(reg(&it, 0), 0xA2);
    assert_eq!(reg(&it, 1), 0x00);
}

#[test]
fn draw_font_glyph_and_erase_it() {
    // I = glyph "0"; draw it at (V0, V1) = (0, 0); draw again.
    let mut it = Interpreter::new(&program(&[0xA050, 0xD015, 0xD015]));
    run(&mut it, 2);
    let sys = it.system();
    let rows = [0xF0u8, 0x90, 0x90, 0x90, 0xF0];
    for (row, bits) in rows.iter().enumerate() {
        for col in 0..8 {
            assert_eq!(sys.pixel(col, row), (bits >> (7 - col)) & 1 == 1, "pixel {} {}", col, row);
        }
    }
    assert!(!sys.pixel(0, 5));
    assert_eq!(reg(&it, 0xF), 0);
    run(&mut it, 1);
    for col in 0..64 {
        for row in 0..32 {
            assert!(!it.system().pixel(col, row));
        }
    }
    assert_eq!(reg(&it, 0xF), 1);
}

#[test]
fn draw_clips_at_the_edges() {
    // glyph "8" at (62, 30): only two columns and two rows are visible.
    let mut it = Interpreter::new(&program(&[0xA078, 0x603E, 0x611E, 0xD015]));
    run(&mut it, 4);
    let sys = it.system();
    assert!(sys.pixel(62, 30) && sys.pixel(63, 30));
    assert!(sys.pixel(62, 31) && !sys.pixel(63, 31));
    assert!(!sys.pixel(0, 30) && !sys.pixel(0, 0) && !sys.pixel(62, 0));
    let lit = (0..64).flat_map(|c| (0..32).map(move |r| (c, r))).filter(|&(c, r)| sys.pixel(c, r)).count();
    assert_eq!(lit, 3);
}

#[test]
fn draw_wraps_the_start_position() {
    // (V0, V1) = (64 + 3, 32 + 2) draws at (3, 2).
    let mut it = Interpreter::new(&program(&[0xA050, 0x6043, 0x6122, 0xD011]));
    run(&mut it, 4);
    assert!(it.system().pixel(3, 2) && it.system().pixel(6, 2) && !it.system().pixel(7, 2));
}

#[test]
fn clear_display_turns_pixels_off() {
    let mut it = Interpreter::new(&program(&[0xA050, 0xD015, 0x00E0]));
    run(&mut it, 2);
    assert!(it.system().pixel(0, 0));
    run(&mut it, 1);
    assert!(!it.system().pixel(0, 0));
    let mut it = Interpreter::new(&program(&[0xA050, 0xD015]));
    run(&mut it, 2);
    it.clear_display();
    for col in 0..64 {
        for row in 0..32 {
            assert!(!it.system().pixel(col, row));
        }
    }
}

#[test]
fn draw_sprite_directly() {
    let mut it = Interpreter::new(&program(&[0xA050, 0x6302, 0x6401]));
    run(&mut it, 3);
    it.draw_sprite(3, 4, 1);
    assert!(it.system().pixel(2, 1) && it.system().pixel(5, 1) && !it.system().pixel(6, 1));
    assert_eq!(reg(&it, 0xF), 0);
    it.draw_sprite(3, 4, 1);
    assert!(!it.system().pixel(2, 1));
    assert_eq!(reg(&it, 0xF), 1);
}

#[test]
fn frame_rgb24_follows_the_display() {
    let mut it = Interpreter::new(&program(&[0xA050, 0xD011]));
    run(&mut it, 2);
    let data = it.frame_rgb24();
    assert_eq!(data.len(), 64 * 32 * 3);
    assert_eq!(&data[0..12], &[255; 12]);
    assert_eq!(&data[12..15], &[0, 0, 0]);
    assert!(data[12..].iter().all(|b| *b == 0));
}

#[test]
fn key_wait() {
    let mut it = Interpreter::new(&program(&[0xF50A]));
    assert_eq!(it.step_with(&[], 0), None);
    assert_eq!(it.system().pc(), 0x200);
    assert_eq!(it.step_with(&[SCANCODE_V + 100], 0), None);
    assert_eq!(it.system().pc(), 0x200);
    assert_eq!(it.step_with(&[SCANCODE_A, SCANCODE_1], 0), None);
    assert_eq!(it.system().pc(), 0x202);
    assert_eq!(reg(&it, 5), 0x7);
}

#[test]
fn keypad_layout() {
    let layout: [(i32, u8); 16] = [
        (30, 0x1), (31, 0x2), (32, 0x3), (33, 0xC),
        (20, 0x4), (26, 0x5), (8, 0x6), (21, 0xD),
        (4, 0x7), (22, 0x8), (7, 0x9), (9, 0xE),
        (29, 0xA), (27, 0x0), (6, 0xB), (25, 0xF),
    ];
    let it = Interpreter::new(&[]);
    for (scancode, key) in layout {
        assert_eq!(key_of_scancode(scancode), key);
        assert_eq!(it.decode_keycode(&[scancode]), key);
    }
    assert_eq!(key_of_scancode(5), 0x10);
    assert_eq!(key_of_scancode(34), 0x10);
    assert_eq!(it.decode_keycode(&[]), 0x10);
    assert_eq!(it.decode_keycode(&[5, 41, 100]), 0x10);
    assert_eq!(it.decode_keycode(&[5, 25, 30]), 0xF);
    // keyboard X is keypad 0, keyboard 1 is keypad 1
    assert_eq!(it.decode_keycode(&[27]), 0x0);
    assert_eq!(it.decode_keycode(&[SCANCODE_1]), 0x1);
}

#[test]
fn random_byte_is_masked() {
    let mut it = Interpreter::new(&program(&[0xC3F0, 0xC400, 0xC50F]));
    assert_eq!(it.step_with(&[], 0xAB), None);
    assert_eq!(reg(&it, 3), 0xA0);
    assert_eq!(it.step_with(&[], 0xAB), None);
    assert_eq!(reg(&it, 4), 0);
    assert_eq!(it.step_with(&[], 0xAB), None);
    assert_eq!(reg(&it, 5), 0x0B);
}

#[test]
fn next_instruction_draws_random_bytes() {
    let mut it = Interpreter::new(&program(&[0xC3F0, 0xC400, 0x6501]));
    assert_eq!(it.next_instruction(&[]), None);
    assert_eq!(reg(&it, 3) & 0x0F, 0);
    assert_eq!(it.next_instruction(&[]), None);
    assert_eq!(reg(&it, 4), 0);
    assert_eq!(it.next_instruction(&[]), None);
    assert_eq!(reg(&it, 5), 1);
    assert_eq!(it.system().pc(), 0x206);
}

#[test]
fn unknown_opcodes_are_reported_and_skipped() {
    for op in [0x0123u16, 0x8008, 0x800F, 0xE09E, 0xF0FF] {
        let mut it = Interpreter::new(&program(&[op]));
        assert_eq!(it.next_instruction(&[]), Some(op));
        assert_eq!(it.system().pc(), 0x202);
        for r in 0..16 {
            assert_eq!(reg(&it, r), 0);
        }
    }
}

#[test]
fn fault_program_counter_out_of_memory() {
    let mut it = Interpreter::new(&program(&[0x1FFF]));
    run(&mut it, 1);
    assert!(matches!(it.fault(), Some(StepFault::ProgramCounterOutOfMemory)));
    let mut it = Interpreter::new(&program(&[0x1FFE]));
    run(&mut it, 1);
    assert!(it.fault().is_none());
}

#[test]
fn fault_stack_underflow() {
    let it = Interpreter::new(&program(&[0x00EE]));
    assert!(matches!(it.fault(), Some(StepFault::StackUnderflow)));
}

#[test]
fn fault_sprite_out_of_memory() {
    let it = Interpreter::new(&program(&[0xD00F]));
    assert!(it.fault().is_none());
    let mut it = Interpreter::new(&program(&[0xAFFE, 0xD002]));
    run(&mut it, 1);
    assert!(it.fault().is_none());
    let mut it = Interpreter::new(&program(&[0xAFFE, 0xD003]));
    run(&mut it, 1);
    assert!(matches!(it.fault(), Some(StepFault::SpriteOutOfMemory)));
    // rows below the bottom edge are not read: V1 = 31 leaves one row
    let mut it = Interpreter::new(&program(&[0xAFFF, 0x611F, 0xD01F]));
    run(&mut it, 2);
    assert!(it.fault().is_none());
}

#[test]
fn fault_transfer_out_of_memory() {
    let mut it = Interpreter::new(&program(&[0xAFFE, 0xF033]));
    run(&mut it, 1);
    assert!(matches!(it.fault(), Some(StepFault::TransferOutOfMemory)));
    let mut it = Interpreter::new(&program(&[0xAFFC, 0xF355]));
    run(&mut it, 1);
    assert!(it.fault().is_none());
    let mut it = Interpreter::new(&program(&[0xAFFD, 0xF355]));
    run(&mut it, 1);
    assert!(matches!(it.fault(), Some(StepFault::TransferOutOfMemory)));
    let mut it = Interpreter::new(&program(&[0xAFFD, 0xF365]));
    run(&mut it, 1);
    assert!(matches!(it.fault(), Some(StepFault::TransferOutOfMemory)));
}

#[test]
fn dec_timers_256_times_restores_timers() {
    let mut it = Interpreter::new(&program(&[0x6009, 0xF015, 0xF018]));
    run(&mut it, 3);
    for k in 1..=256u32 {
        it.dec_timers();
        assert_eq!(it.system().delay_timer() as u32, (9 + 256 - k % 256) % 256);
    }
    assert_eq!(it.system().delay_timer(), 9);
    assert_eq!(it.system().sound_timer(), 9);
}

#[test]
fn dump_memory_lists_nonzero_words() {
    let it = Interpreter::new(&[0x12, 0x00, 0x00, 0x00, 0x00, 0x34]);
    let words = it.dump_memory();
    let font_words: Vec<(usize, u8, u8)> =
        (0..40).map(|k| (0x50 + 2 * k, FONT[2 * k], FONT[2 * k + 1])).collect();
    let mut expected = font_words;
    expected.push((0x200, 0x12, 0x00));
    expected.push((0x204, 0x00, 0x34));
    assert_eq!(words, expected);
}
