use vstd::prelude::*;
use crate::keypad::{first_key, keypad_key};
use crate::machine::{
    Chip8State, advance, can_step, display_cleared, fetch, is_unknown, op_family, op_n,
    op_nn, op_x, op_y, sprite_collides, sprite_drawn, sprite_flips, step,
    DISPLAY_SIZE, FLAG_REGISTER, MEMORY_SIZE, NO_KEY, timer_ticked_times,
};

verus! {

/// Drawing the same sprite twice at the same place leaves the display as it
/// was: sprites are XOR-ed onto the display. (The registers that place the
/// sprite must not be `VF`, which the first drawing overwrites.)
pub proof fn lemma_sprite_drawn_twice_restores_display(s: Chip8State, xr: int, yr: int, n: u8)
    requires
        s.wf(),
        0 <= xr < FLAG_REGISTER as int,
        0 <= yr < FLAG_REGISTER as int,
    ensures
        sprite_drawn(sprite_drawn(s, xr, yr, n), xr, yr, n).display == s.display,
{
    let s1 = sprite_drawn(s, xr, yr, n);
    assert forall|p: int| 0 <= p < DISPLAY_SIZE as int implies
        sprite_flips(s1, xr, yr, n, p) == sprite_flips(s, xr, yr, n, p) by {}
    assert(sprite_drawn(s1, xr, yr, n).display =~= s.display);
}

/// Running a `DXYN` twice in a row (the same opcode stored twice) restores
/// the display, when neither `X` nor `Y` is `F`.
pub proof fn lemma_draw_instruction_twice_restores_display(s: Chip8State, key: u8, rnd: u8)
    requires
        s.wf(),
        can_step(s),
        op_family(fetch(s)) == 0xD,
        op_x(fetch(s)) != FLAG_REGISTER as int,
        op_y(fetch(s)) != FLAG_REGISTER as int,
        fetch(step(s, key, rnd)) == fetch(s),
    ensures
        step(step(s, key, rnd), key, rnd).display == s.display,
{
    let op = fetch(s);
    let s1 = step(s, key, rnd);
    assert(s1 == sprite_drawn(advance(s), op_x(op), op_y(op), op_n(op)));
    lemma_sprite_drawn_twice_restores_display(advance(s), op_x(op), op_y(op), op_n(op));
    assert(step(s1, key, rnd) == sprite_drawn(advance(s1), op_x(op), op_y(op), op_n(op)));
    assert forall|p: int| 0 <= p < DISPLAY_SIZE as int implies
        sprite_flips(advance(s1), op_x(op), op_y(op), op_n(op), p)
            == sprite_flips(s1, op_x(op), op_y(op), op_n(op), p) by {}
    assert(step(s1, key, rnd).display =~= s.display);
}

/// A subroutine call (`2NNN`) followed by a return (`00EE`) at its target
/// comes back to the instruction after the call, with the stack and every
/// other part of the machine as before the call.
pub proof fn lemma_call_then_return(s: Chip8State, key1: u8, rnd1: u8, key2: u8, rnd2: u8)
    requires
        s.wf(),
        can_step(s),
        op_family(fetch(s)) == 0x2,
        fetch(step(s, key1, rnd1)) == 0x00EE,
    ensures
        step(step(s, key1, rnd1), key2, rnd2) == advance(s),
{
    let s1 = step(s, key1, rnd1);
    assert(s1.stack == s.stack.push(advance(s).pc));
    assert(s1.stack.drop_last() =~= s.stack);
}

/// Executing an unknown opcode only moves the program counter past it.
pub proof fn lemma_unknown_opcode_is_skipped(s: Chip8State, key: u8, rnd: u8)
    requires
        is_unknown(fetch(s)),
    ensures
        step(s, key, rnd) == advance(s),
{
}

/// One instruction keeps the sizes of memory, display and register file.
pub proof fn lemma_step_keeps_wf(s: Chip8State, key: u8, rnd: u8)
    requires
        s.wf(),
        can_step(s),
    ensures
        step(s, key, rnd).wf(),
{
}

/// `FX33` stores the decimal digits of `VX`: three digits below ten whose
/// value is `VX`, at `I`, `I + 1` and `I + 2`; the rest of memory is kept.
pub proof fn lemma_bcd_digits(s: Chip8State, key: u8, rnd: u8)
    requires
        s.wf(),
        can_step(s),
        op_family(fetch(s)) == 0xF,
        op_nn(fetch(s)) == 0x33,
    ensures
        ({
            let a = s.i as int;
            let m = step(s, key, rnd).memory;
            &&& a + 2 < MEMORY_SIZE as int
            &&& m[a] < 10 && m[a + 1] < 10 && m[a + 2] < 10
            &&& m[a] * 100 + m[a + 1] * 10 + m[a + 2] == s.v[op_x(fetch(s))]
            &&& forall|b: int| 0 <= b < MEMORY_SIZE as int && !(a <= b <= a + 2) ==> m[b] == s.memory[b]
        }),
{
}

/// `FX55` followed by `FX65` with the same `X` and `I` loads back the
/// registers `V0` to `VX` that were stored, and leaves the others as they
/// were after the store.
pub proof fn lemma_store_then_load_registers(s: Chip8State, key1: u8, rnd1: u8, key2: u8, rnd2: u8)
    requires
        s.wf(),
        can_step(s),
        op_family(fetch(s)) == 0xF,
        op_nn(fetch(s)) == 0x55,
        op_family(fetch(step(s, key1, rnd1))) == 0xF,
        op_nn(fetch(step(s, key1, rnd1))) == 0x65,
        op_x(fetch(step(s, key1, rnd1))) == op_x(fetch(s)),
    ensures
        step(step(s, key1, rnd1), key2, rnd2).v == s.v,
{
    let s1 = step(s, key1, rnd1);
    let s2 = step(s1, key2, rnd2);
    assert(s2.v =~= s.v);
}

/// Counting a timer down `k` times subtracts `k` modulo 256; in particular
/// 256 counts bring it back to where it started.
pub proof fn lemma_timer_ticked_times(t: u8, k: nat)
    ensures
        timer_ticked_times(t, k) as int == (t as int - k as int) % 256,
        k == 256 ==> timer_ticked_times(t, k) == t,
    decreases k,
{
    if k > 0 {
        lemma_timer_ticked_times(t, (k - 1) as nat);
    }
}

/// `8XY4` adds with carry: the new `VX` plus 256 times the new `VF` is the
/// sum of the old `VX` and `VY` (for `X` other than `F`).
pub proof fn lemma_add_with_carry(s: Chip8State, key: u8, rnd: u8)
    requires
        s.wf(),
        can_step(s),
        op_family(fetch(s)) == 0x8,
        op_n(fetch(s)) == 0x4,
        op_x(fetch(s)) != FLAG_REGISTER as int,
    ensures
        ({
            let x = op_x(fetch(s));
            let y = op_y(fetch(s));
            let t = step(s, key, rnd);
            t.v[x] + 256 * t.v[FLAG_REGISTER as int] == s.v[x] + s.v[y]
        }),
{
}

/// `8XY5` subtracts with borrow: the new `VF` is 1 exactly when `VX >= VY`,
/// and the new `VX` plus 256 when there was a borrow is `VX - VY` (for `X`
/// other than `F`).
pub proof fn lemma_sub_with_borrow(s: Chip8State, key: u8, rnd: u8)
    requires
        s.wf(),
        can_step(s),
        op_family(fetch(s)) == 0x8,
        op_n(fetch(s)) == 0x5,
        op_x(fetch(s)) != FLAG_REGISTER as int,
    ensures
        ({
            let x = op_x(fetch(s));
            let y = op_y(fetch(s));
            let t = step(s, key, rnd);
            &&& (t.v[FLAG_REGISTER as int] == 1) == (s.v[x] >= s.v[y])
            &&& t.v[x] - 256 * (1 - t.v[FLAG_REGISTER as int]) == s.v[x] - s.v[y]
        }),
{
}

/// Drawing on a blank display never reports a collision.
pub proof fn lemma_no_collision_on_blank_display(s: Chip8State, xr: int, yr: int, n: u8)
    requires
        s.wf(),
        0 <= xr < 16,
        0 <= yr < 16,
    ensures
        sprite_drawn(display_cleared(s), xr, yr, n).v[FLAG_REGISTER as int] == 0,
{
    let c = display_cleared(s);
    if sprite_collides(c, xr, yr, n) {
        let p = choose|p: int| 0 <= p < DISPLAY_SIZE as int && #[trigger] sprite_flips(c, xr, yr, n, p) && c.display[p];
        assert(!c.display[p]);
    }
}

/// `FX0A` with no keypad key held leaves the machine unchanged, so the
/// same instruction runs again: it waits for a key.
pub proof fn lemma_key_wait_repeats(s: Chip8State, key: u8, rnd: u8)
    requires
        s.wf(),
        can_step(s),
        op_family(fetch(s)) == 0xF,
        op_nn(fetch(s)) == 0x0A,
        key == NO_KEY,
    ensures
        step(s, key, rnd) == s,
{
}

/// The keypad decoder finds no key exactly when no held keyboard key stands
/// for a keypad key, and otherwise finds the key of a held keyboard key.
pub proof fn lemma_first_key_found(pressed: Seq<i32>)
    ensures
        first_key(pressed) <= NO_KEY,
        (first_key(pressed) == NO_KEY) <==> (forall|k: int| 0 <= k < pressed.len() ==> #[trigger] keypad_key(pressed[k]) == NO_KEY),
        first_key(pressed) != NO_KEY ==> exists|k: int| 0 <= k < pressed.len() && #[trigger] keypad_key(pressed[k]) == first_key(pressed),
    decreases pressed.len(),
{
    if pressed.len() > 0 {
        let rest = pressed.drop_first();
        lemma_first_key_found(rest);
        if keypad_key(pressed[0]) > 0xF {
            assert forall|k: int| 0 < k < pressed.len() implies #[trigger] keypad_key(pressed[k]) == keypad_key(rest[k - 1]) by {}
            if first_key(rest) != NO_KEY {
                let j = choose|j: int| 0 <= j < rest.len() && #[trigger] keypad_key(rest[j]) == first_key(rest);
                assert(keypad_key(pressed[j + 1]) == first_key(pressed));
            } else {
                assert forall|k: int| 0 <= k < pressed.len() implies #[trigger] keypad_key(pressed[k]) == NO_KEY by {
                    if k > 0 {
                        assert(keypad_key(rest[k - 1]) == NO_KEY);
                    }
                }
            }
        } else {
            assert(keypad_key(pressed[0]) == first_key(pressed));
        }
    }
}


/// Some keyboard key stands for keypad key `k`.
pub open spec fn produced_by_some_key(k: u8) -> bool {
    exists|sc: i32| #[trigger] keypad_key(sc) == k
}

/// Every keypad key 0x0 to 0xF is produced by exactly one keyboard key, and
/// holding that key alone makes the decoder report it.
pub proof fn lemma_keypad_keys_all_reachable()
    ensures
        forall|k: u8| k <= 0xF ==> #[trigger] produced_by_some_key(k),
        forall|a: i32, b: i32| keypad_key(a) <= 0xF && #[trigger] keypad_key(a) == #[trigger] keypad_key(b) ==> a == b,
        forall|sc: i32| keypad_key(sc) <= 0xF ==> #[trigger] first_key(seq![sc]) == keypad_key(sc),
{
    assert forall|k: u8| k <= 0xF implies #[trigger] produced_by_some_key(k) by {
        let codes = seq![27i32, 30, 31, 32, 20, 26, 8, 4, 22, 7, 29, 6, 33, 21, 9, 25];
        assert(keypad_key(codes[k as int]) == k);
    }
    assert forall|sc: i32| keypad_key(sc) <= 0xF implies #[trigger] first_key(seq![sc]) == keypad_key(sc) by {
        assert(seq![sc][0] == sc);
    }
}


/// The decoder reports the keypad key of the earliest held keyboard key that
/// stands for one: keys before it that stand for none are passed over, keys
/// after it do not matter.
pub proof fn lemma_first_key_is_earliest(pressed: Seq<i32>, j: int)
    requires
        0 <= j < pressed.len(),
        keypad_key(pressed[j]) <= 0xF,
        forall|i: int| 0 <= i < j ==> #[trigger] keypad_key(pressed[i]) > 0xF,
    ensures
        first_key(pressed) == keypad_key(pressed[j]),
    decreases j,
{
    if j > 0 {
        let rest = pressed.drop_first();
        assert(keypad_key(pressed[0]) > 0xF);
        assert forall|i: int| 0 <= i < j - 1 implies #[trigger] keypad_key(rest[i]) > 0xF by {
            assert(rest[i] == pressed[i + 1]);
        }
        lemma_first_key_is_earliest(rest, j - 1);
    }
}

} // verus!
