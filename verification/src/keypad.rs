use vstd::prelude::*;

verus! {

// Scancodes of the keyboard keys that make up the keypad (USB HID usage
// numbers, as SDL numbers them).
pub const SCANCODE_A: i32 = 4;
pub const SCANCODE_C: i32 = 6;
pub const SCANCODE_D: i32 = 7;
pub const SCANCODE_E: i32 = 8;
pub const SCANCODE_F: i32 = 9;
pub const SCANCODE_Q: i32 = 20;
pub const SCANCODE_R: i32 = 21;
pub const SCANCODE_S: i32 = 22;
pub const SCANCODE_V: i32 = 25;
pub const SCANCODE_W: i32 = 26;
pub const SCANCODE_X: i32 = 27;
pub const SCANCODE_Z: i32 = 29;
pub const SCANCODE_1: i32 = 30;
pub const SCANCODE_2: i32 = 31;
pub const SCANCODE_3: i32 = 32;
pub const SCANCODE_4: i32 = 33;

/// The keypad key that a keyboard key stands for, or `0x10` for a key
/// outside the keypad. The keypad is laid out on the left of the keyboard:
///
/// ```text
/// keypad     keyboard
/// 1 2 3 C    1 2 3 4
/// 4 5 6 D    Q W E R
/// 7 8 9 E    A S D F
/// A 0 B F    Z X C V
/// ```
pub open spec fn keypad_key(scancode: i32) -> u8 {
    if scancode == SCANCODE_1 { 0x1 }
    else if scancode == SCANCODE_2 { 0x2 }
    else if scancode == SCANCODE_3 { 0x3 }
    else if scancode == SCANCODE_4 { 0xC }
    else if scancode == SCANCODE_Q { 0x4 }
    else if scancode == SCANCODE_W { 0x5 }
    else if scancode == SCANCODE_E { 0x6 }
    else if scancode == SCANCODE_R { 0xD }
    else if scancode == SCANCODE_A { 0x7 }
    else if scancode == SCANCODE_S { 0x8 }
    else if scancode == SCANCODE_D { 0x9 }
    else if scancode == SCANCODE_F { 0xE }
    else if scancode == SCANCODE_Z { 0xA }
    else if scancode == SCANCODE_X { 0x0 }
    else if scancode == SCANCODE_C { 0xB }
    else if scancode == SCANCODE_V { 0xF }
    else { 0x10 }
}

/// The keypad key of the first held keyboard key in `pressed` that stands for
/// one, or `0x10` when none does.
pub open spec fn first_key(pressed: Seq<i32>) -> u8
    decreases pressed.len(),
{
    if pressed.len() == 0 {
        0x10
    } else if keypad_key(pressed[0]) <= 0xF {
        keypad_key(pressed[0])
    } else {
        first_key(pressed.drop_first())
    }
}

/// The keypad key that keyboard key `scancode` stands for, or `0x10`.
pub fn key_of_scancode(scancode: i32) -> (k: u8)
    ensures
        k == keypad_key(scancode),
        k <= 0x10,
{
    match scancode {
        SCANCODE_1 => 0x1,
        SCANCODE_2 => 0x2,
        SCANCODE_3 => 0x3,
        SCANCODE_4 => 0xC,
        SCANCODE_Q => 0x4,
        SCANCODE_W => 0x5,
        SCANCODE_E => 0x6,
        SCANCODE_R => 0xD,
        SCANCODE_A => 0x7,
        SCANCODE_S => 0x8,
        SCANCODE_D => 0x9,
        SCANCODE_F => 0xE,
        SCANCODE_Z => 0xA,
        SCANCODE_X => 0x0,
        SCANCODE_C => 0xB,
        SCANCODE_V => 0xF,
        _ => 0x10,
    }
}

/// `first_key` of a sequence is `first_key` of its tail once the keys
/// before stand for no keypad key.
pub proof fn lemma_first_key_skip(pressed: Seq<i32>, k: int)
    requires
        0 <= k < pressed.len(),
        keypad_key(pressed[k]) > 0xF,
    ensures
        first_key(pressed.skip(k)) == first_key(pressed.skip(k + 1)),
{
    assert(pressed.skip(k).drop_first() =~= pressed.skip(k + 1));
}

} // verus!
