//! What each instruction does, stated directly over the opcode's fields and
//! the state before the step: one law per instruction, proved from the model.
use vstd::prelude::*;
use crate::bits::{word_bit, lemma_word_mask_bit, lemma_bits_determine_word};
use crate::bits::{lemma_extract_bit, lemma_xor_of_bits};
use crate::machine::{
    CpuState, nibbles, step, first_key_from, fetch, tick_spec, pixel, flips, origin_x, origin_y,
    collides, drawn_display, flag,
};
use crate::screen::{lemma_drawn_pixel, lemma_pixel_position};

verus! {

/// The opcode with the four nibbles `a`, `x`, `y`, `n`, most significant first.
pub open spec fn opcode(a: int, x: int, y: int, n: int) -> u16 {
    (a * 0x1000 + x * 0x100 + y * 0x10 + n) as u16
}

/// An opcode's nibbles and its low byte and low twelve bits are the fields it was built from.
pub proof fn lemma_opcode_fields(a: int, x: int, y: int, n: int)
    requires
        0 <= a < 16,
        0 <= x < 16,
        0 <= y < 16,
        0 <= n < 16,
    ensures
        nibbles(opcode(a, x, y, n)) == (a as u8, x as u8, y as u8, n as u8),
        opcode(a, x, y, n) % 0x100 == y * 0x10 + n,
        opcode(a, x, y, n) % 0x1000 == x * 0x100 + y * 0x10 + n,
{
    let op = a * 0x1000 + x * 0x100 + y * 0x10 + n;
    assert(0 <= op < 0x10000);
    assert(op / 0x1000 == a);
    assert(op % 0x1000 == x * 0x100 + y * 0x10 + n);
    assert(op / 0x100 == a * 0x10 + x);
    assert((op / 0x100) % 0x10 == x);
    assert(op / 0x10 == a * 0x100 + x * 0x10 + y);
    assert((op / 0x10) % 0x10 == y);
    assert(op % 0x10 == n);
    assert(op % 0x100 == y * 0x10 + n);
}

/// `8xy4` adds Vy to Vx: the carry lands in VF and the low byte in Vx, so
/// that VF * 256 + Vx is the sum of the two registers before the step.
/// Other registers are untouched and the program counter moves on.
pub proof fn law_add_registers(s: CpuState, x: int, y: int, r: u8)
    requires
        s.well_shaped(),
        0 <= x < 15,
        0 <= y < 16,
        s.pc + 2 <= 0xFFFF,
    ensures
        ({
            let t = step(s, opcode(8, x, y, 4), r);
            &&& t.v[15] * 256 + t.v[x] == s.v[x] + s.v[y]
            &&& t.v[15] <= 1
            &&& forall|k: int| 0 <= k < 15 && k != x ==> t.v[k] == s.v[k]
            &&& t.pc == s.pc + 2
        }),
{
    lemma_opcode_fields(8, x, y, 4);
}

/// `3xkk` skips the next instruction exactly when Vx equals `kk`, and
/// `4xkk` exactly when it does not; neither changes anything else.
pub proof fn law_skip_on_byte(s: CpuState, x: int, kk: int, r: u8)
    requires
        s.well_shaped(),
        0 <= x < 16,
        0 <= kk < 256,
        s.pc + 4 <= 0xFFFF,
    ensures
        ({
            let t = step(s, opcode(3, x, kk / 16, kk % 16), r);
            &&& t.pc == if s.v[x] == kk { s.pc + 4 } else { s.pc + 2 }
            &&& t == (CpuState { pc: t.pc, ..s })
        }),
        ({
            let t = step(s, opcode(4, x, kk / 16, kk % 16), r);
            &&& t.pc == if s.v[x] != kk { s.pc + 4 } else { s.pc + 2 }
            &&& t == (CpuState { pc: t.pc, ..s })
        }),
{
    lemma_opcode_fields(3, x, kk / 16, kk % 16);
    lemma_opcode_fields(4, x, kk / 16, kk % 16);
}

/// `5xy0` skips the next instruction exactly when Vx equals Vy, and `9xy0`
/// exactly when they differ; neither changes anything else.
pub proof fn law_skip_on_registers(s: CpuState, x: int, y: int, r: u8)
    requires
        s.well_shaped(),
        0 <= x < 16,
        0 <= y < 16,
        s.pc + 4 <= 0xFFFF,
    ensures
        ({
            let t = step(s, opcode(5, x, y, 0), r);
            &&& t.pc == if s.v[x] == s.v[y] { s.pc + 4 } else { s.pc + 2 }
            &&& t == (CpuState { pc: t.pc, ..s })
        }),
        ({
            let t = step(s, opcode(9, x, y, 0), r);
            &&& t.pc == if s.v[x] != s.v[y] { s.pc + 4 } else { s.pc + 2 }
            &&& t == (CpuState { pc: t.pc, ..s })
        }),
{
    lemma_opcode_fields(5, x, y, 0);
    lemma_opcode_fields(9, x, y, 0);
}

/// `Ex9E` skips the next instruction exactly when key Vx is down (bit Vx of
/// the key set), and `ExA1` exactly when it is up; no other key matters and
/// nothing else changes.
pub proof fn law_skip_on_key(s: CpuState, x: int, r: u8)
    requires
        s.well_shaped(),
        0 <= x < 16,
        s.v[x] < 16,
        s.pc + 4 <= 0xFFFF,
    ensures
        ({
            let t = step(s, opcode(0xE, x, 9, 0xE), r);
            &&& t.pc == if s.keys & (1u16 << (s.v[x] as u16)) != 0 { s.pc + 4 } else { s.pc + 2 }
            &&& t == (CpuState { pc: t.pc, ..s })
        }),
        ({
            let t = step(s, opcode(0xE, x, 0xA, 1), r);
            &&& t.pc == if s.keys & (1u16 << (s.v[x] as u16)) == 0 { s.pc + 4 } else { s.pc + 2 }
            &&& t == (CpuState { pc: t.pc, ..s })
        }),
{
    lemma_opcode_fields(0xE, x, 9, 0xE);
    lemma_opcode_fields(0xE, x, 0xA, 1);
    lemma_word_mask_bit(s.keys, s.v[x] as u16);
}

/// The lowest key at or above `k` that is down is down, and no key between
/// `k` and it is; when there is none, no key from `k` on is down.
pub proof fn lemma_first_key(keys: u16, k: int)
    requires
        0 <= k <= 16,
    ensures
        match first_key_from(keys, k) {
            Some(m) => k <= m < 16 && word_bit(keys, m as u16) && forall|j: int|
                k <= j < m ==> !#[trigger] word_bit(keys, j as u16),
            None => forall|j: int| k <= j < 16 ==> !#[trigger] word_bit(keys, j as u16),
        },
    decreases 16 - k,
{
    if k < 16 {
        lemma_first_key(keys, k + 1);
    }
}

/// `Fx0A` waits for a key: with no key down it changes nothing, so it runs
/// again; otherwise Vx becomes the lowest key that is down and the program
/// counter moves on.
pub proof fn law_wait_for_key_stores_lowest(s: CpuState, x: int, r: u8)
    requires
        s.well_shaped(),
        0 <= x < 16,
        s.pc + 2 <= 0xFFFF,
    ensures
        ({
            let t = step(s, opcode(0xF, x, 0, 0xA), r);
            &&& s.keys == 0 ==> t == s
            &&& s.keys != 0 ==> {
                &&& t.v[x] < 16
                &&& s.keys & (1u16 << (t.v[x] as u16)) != 0
                &&& forall|j: u16| j < t.v[x] ==> s.keys & (1u16 << j) == 0
                &&& forall|k: int| 0 <= k < 16 && k != x ==> t.v[k] == s.v[k]
                &&& t.pc == s.pc + 2
            }
        }),
{
    lemma_opcode_fields(0xF, x, 0, 0xA);
    lemma_first_key(s.keys, 0);
    let t = step(s, opcode(0xF, x, 0, 0xA), r);
    if s.keys == 0 {
        assert forall|j: u16| j < 16 implies !word_bit(0u16, j) by {
            assert(!word_bit(0u16, j)) by (bit_vector);
        }
        assert(first_key_from(s.keys, 0) is None);
    } else {
        if first_key_from(s.keys, 0) is None {
            assert forall|j: u16| j < 16 implies word_bit(s.keys, j) == word_bit(0u16, j) by {
                assert(!word_bit(0u16, j)) by (bit_vector);
                assert(!word_bit(s.keys, (j as int) as u16));
            }
            lemma_bits_determine_word(s.keys, 0u16);
        }
        let m = first_key_from(s.keys, 0)->Some_0;
        assert(t.v[x] == m);
        lemma_word_mask_bit(s.keys, m as u16);
        assert forall|j: u16| j < t.v[x] implies s.keys & (1u16 << j) == 0 by {
            lemma_word_mask_bit(s.keys, j);
            assert(!word_bit(s.keys, (j as int) as u16));
        }
    }
}

/// `Fx29` points I at the font sprite of digit Vx: five bytes per digit, so
/// I is five times Vx. Nothing else but the program counter changes.
pub proof fn law_font_address(s: CpuState, x: int, r: u8)
    requires
        s.well_shaped(),
        0 <= x < 16,
        s.pc + 2 <= 0xFFFF,
    ensures
        ({
            let t = step(s, opcode(0xF, x, 2, 9), r);
            &&& t.i == 5 * s.v[x]
            &&& t == (CpuState { i: t.i, pc: t.pc, ..s })
            &&& t.pc == s.pc + 2
        }),
{
    lemma_opcode_fields(0xF, x, 2, 9);
}

/// The opcode `a` followed by the twelve-bit address `nnn`.
pub open spec fn address_opcode(a: int, nnn: int) -> u16 {
    opcode(a, nnn / 0x100, (nnn / 0x10) % 0x10, nnn % 0x10)
}

/// The opcode `a`, register `x`, then the byte `kk`.
pub open spec fn byte_opcode(a: int, x: int, kk: int) -> u16 {
    opcode(a, x, kk / 0x10, kk % 0x10)
}

/// An address opcode's low twelve bits are its address.
pub proof fn lemma_address_opcode(a: int, nnn: int)
    requires
        0 <= a < 16,
        0 <= nnn < 0x1000,
    ensures
        nibbles(address_opcode(a, nnn)) == (
            a as u8,
            (nnn / 0x100) as u8,
            ((nnn / 0x10) % 0x10) as u8,
            (nnn % 0x10) as u8,
        ),
        address_opcode(a, nnn) % 0x1000 == nnn,
{
    lemma_opcode_fields(a, nnn / 0x100, (nnn / 0x10) % 0x10, nnn % 0x10);
}

/// A byte opcode's low byte is its byte.
pub proof fn lemma_byte_opcode(a: int, x: int, kk: int)
    requires
        0 <= a < 16,
        0 <= x < 16,
        0 <= kk < 0x100,
    ensures
        nibbles(byte_opcode(a, x, kk)) == (a as u8, x as u8, (kk / 0x10) as u8, (kk % 0x10) as u8),
        byte_opcode(a, x, kk) % 0x100 == kk,
{
    lemma_opcode_fields(a, x, kk / 0x10, kk % 0x10);
}

/// `1nnn` jumps to `nnn` and changes nothing else.
pub proof fn law_jump(s: CpuState, nnn: int, r: u8)
    requires
        s.well_shaped(),
        0 <= nnn < 0x1000,
    ensures
        step(s, address_opcode(1, nnn), r) == (CpuState { pc: nnn as u16, ..s }),
{
    lemma_address_opcode(1, nnn);
}

/// `Bnnn` jumps to `nnn` plus V0 and changes nothing else.
pub proof fn law_jump_plus_v0(s: CpuState, nnn: int, r: u8)
    requires
        s.well_shaped(),
        0 <= nnn < 0x1000,
    ensures
        step(s, address_opcode(0xB, nnn), r) == (CpuState { pc: (nnn + s.v[0]) as u16, ..s }),
        step(s, address_opcode(0xB, nnn), r).pc == nnn + s.v[0],
{
    lemma_address_opcode(0xB, nnn);
}

/// `2nnn` pushes the address of the next instruction onto the stack and
/// jumps to `nnn`.
pub proof fn law_call(s: CpuState, nnn: int, r: u8)
    requires
        s.well_shaped(),
        0 <= nnn < 0x1000,
        s.sp < 16,
        s.pc + 2 <= 0xFFFF,
    ensures
        ({
            let t = step(s, address_opcode(2, nnn), r);
            &&& t.pc == nnn
            &&& t.sp == s.sp + 1
            &&& t.stack[s.sp as int] == s.pc + 2
            &&& forall|k: int| 0 <= k < 16 && k != s.sp ==> t.stack[k] == s.stack[k]
            &&& t == (CpuState { pc: t.pc, sp: t.sp, stack: t.stack, ..s })
        }),
{
    lemma_address_opcode(2, nnn);
}

/// `00EE` pops the top of the stack into the program counter.
pub proof fn law_return(s: CpuState, r: u8)
    requires
        s.well_shaped(),
        1 <= s.sp <= 16,
    ensures
        ({
            let t = step(s, 0x00EE, r);
            &&& t.pc == s.stack[s.sp - 1]
            &&& t.sp == s.sp - 1
            &&& t == (CpuState { pc: t.pc, sp: t.sp, ..s })
        }),
{
    lemma_opcode_fields(0, 0, 0xE, 0xE);
    assert(opcode(0, 0, 0xE, 0xE) == 0x00EE);
}

/// `0nnn`, other than `00E0` and `00EE`, does nothing but move on.
pub proof fn law_system_call(s: CpuState, nnn: int, r: u8)
    requires
        s.well_shaped(),
        0 <= nnn < 0x1000,
        nnn != 0x0E0,
        nnn != 0x0EE,
        s.pc + 2 <= 0xFFFF,
    ensures
        step(s, address_opcode(0, nnn), r) == (CpuState { pc: (s.pc + 2) as u16, ..s }),
{
    lemma_address_opcode(0, nnn);
}

/// `Annn` sets I to `nnn`.
pub proof fn law_set_index(s: CpuState, nnn: int, r: u8)
    requires
        s.well_shaped(),
        0 <= nnn < 0x1000,
        s.pc + 2 <= 0xFFFF,
    ensures
        step(s, address_opcode(0xA, nnn), r) == (CpuState { i: nnn as u16, pc: (s.pc + 2) as u16, ..s }),
{
    lemma_address_opcode(0xA, nnn);
}

/// `6xkk` sets Vx to `kk`; `7xkk` adds `kk` to Vx modulo 256 and leaves VF alone.
pub proof fn law_load_and_add_byte(s: CpuState, x: int, kk: int, r: u8)
    requires
        s.well_shaped(),
        0 <= x < 16,
        0 <= kk < 0x100,
        s.pc + 2 <= 0xFFFF,
    ensures
        ({
            let t = step(s, byte_opcode(6, x, kk), r);
            &&& t.v[x] == kk
            &&& forall|k: int| 0 <= k < 16 && k != x ==> t.v[k] == s.v[k]
            &&& t == (CpuState { v: t.v, pc: (s.pc + 2) as u16, ..s })
        }),
        ({
            let t = step(s, byte_opcode(7, x, kk), r);
            &&& t.v[x] == (s.v[x] + kk) % 256
            &&& forall|k: int| 0 <= k < 16 && k != x ==> t.v[k] == s.v[k]
            &&& t == (CpuState { v: t.v, pc: (s.pc + 2) as u16, ..s })
        }),
{
    lemma_byte_opcode(6, x, kk);
    lemma_byte_opcode(7, x, kk);
}

/// `Cxkk` sets Vx to the random byte masked with `kk`: only bits of `kk` can be set.
pub proof fn law_random_byte(s: CpuState, x: int, kk: int, r: u8)
    requires
        s.well_shaped(),
        0 <= x < 16,
        0 <= kk < 0x100,
        s.pc + 2 <= 0xFFFF,
    ensures
        ({
            let t = step(s, byte_opcode(0xC, x, kk), r);
            &&& t.v[x] == r & (kk as u8)
            &&& forall|k: int| 0 <= k < 16 && k != x ==> t.v[k] == s.v[k]
            &&& t == (CpuState { v: t.v, pc: (s.pc + 2) as u16, ..s })
        }),
{
    lemma_byte_opcode(0xC, x, kk);
}

/// `8xy0` copies Vy into Vx; `8xy1`, `8xy2` and `8xy3` combine Vx with Vy by
/// or, and and exclusive or. VF is left alone unless it is Vx.
pub proof fn law_register_logic(s: CpuState, x: int, y: int, r: u8)
    requires
        s.well_shaped(),
        0 <= x < 16,
        0 <= y < 16,
        s.pc + 2 <= 0xFFFF,
    ensures
        step(s, opcode(8, x, y, 0), r) == (CpuState {
            v: s.v.update(x, s.v[y]),
            pc: (s.pc + 2) as u16,
            ..s
        }),
        step(s, opcode(8, x, y, 1), r) == (CpuState {
            v: s.v.update(x, s.v[x] | s.v[y]),
            pc: (s.pc + 2) as u16,
            ..s
        }),
        step(s, opcode(8, x, y, 2), r) == (CpuState {
            v: s.v.update(x, s.v[x] & s.v[y]),
            pc: (s.pc + 2) as u16,
            ..s
        }),
        step(s, opcode(8, x, y, 3), r) == (CpuState {
            v: s.v.update(x, s.v[x] ^ s.v[y]),
            pc: (s.pc + 2) as u16,
            ..s
        }),
{
    lemma_opcode_fields(8, x, y, 0);
    lemma_opcode_fields(8, x, y, 1);
    lemma_opcode_fields(8, x, y, 2);
    lemma_opcode_fields(8, x, y, 3);
}

/// `8xy5` subtracts Vy from Vx modulo 256, with VF set when Vx was greater
/// than Vy. Stated for Vx and Vy other than VF, which the flag overwrites first.
pub proof fn law_subtract(s: CpuState, x: int, y: int, r: u8)
    requires
        s.well_shaped(),
        0 <= x < 15,
        0 <= y < 15,
        s.pc + 2 <= 0xFFFF,
    ensures
        ({
            let t = step(s, opcode(8, x, y, 5), r);
            &&& t.v[15] == (if s.v[x] > s.v[y] { 1int } else { 0int })
            &&& (t.v[x] + s.v[y]) % 256 == s.v[x]
            &&& s.v[x] >= s.v[y] ==> t.v[x] == s.v[x] - s.v[y]
            &&& forall|k: int| 0 <= k < 15 && k != x ==> t.v[k] == s.v[k]
            &&& t == (CpuState { v: t.v, pc: (s.pc + 2) as u16, ..s })
        }),
{
    lemma_opcode_fields(8, x, y, 5);
    let t = step(s, opcode(8, x, y, 5), r);
    assert(t.v[x] == (s.v[x] - s.v[y] + 256) % 256);
}

/// `8xy7` sets Vx to Vy minus Vx modulo 256, with VF set when Vy was
/// greater than Vx. Stated for Vx and Vy other than VF, which the flag
/// overwrites first.
pub proof fn law_subtract_reversed(s: CpuState, x: int, y: int, r: u8)
    requires
        s.well_shaped(),
        0 <= x < 15,
        0 <= y < 15,
        s.pc + 2 <= 0xFFFF,
    ensures
        ({
            let t = step(s, opcode(8, x, y, 7), r);
            &&& t.v[15] == (if s.v[y] > s.v[x] { 1int } else { 0int })
            &&& (t.v[x] + s.v[x]) % 256 == s.v[y]
            &&& s.v[y] >= s.v[x] ==> t.v[x] == s.v[y] - s.v[x]
            &&& forall|k: int| 0 <= k < 15 && k != x ==> t.v[k] == s.v[k]
            &&& t == (CpuState { v: t.v, pc: (s.pc + 2) as u16, ..s })
        }),
{
    lemma_opcode_fields(8, x, y, 7);
    let t = step(s, opcode(8, x, y, 7), r);
    assert(t.v[x] == (s.v[y] - s.v[x] + 256) % 256);
}

/// `8xy6` halves Vx and puts the bit shifted out in VF; `8xyE` doubles Vx
/// modulo 256 and puts the bit shifted out in VF. Stated for Vx other than VF.
pub proof fn law_shift(s: CpuState, x: int, y: int, r: u8)
    requires
        s.well_shaped(),
        0 <= x < 15,
        0 <= y < 16,
        s.pc + 2 <= 0xFFFF,
    ensures
        ({
            let t = step(s, opcode(8, x, y, 6), r);
            &&& t.v[x] * 2 + t.v[15] == s.v[x]
            &&& t.v[15] <= 1
            &&& forall|k: int| 0 <= k < 15 && k != x ==> t.v[k] == s.v[k]
            &&& t == (CpuState { v: t.v, pc: (s.pc + 2) as u16, ..s })
        }),
        ({
            let t = step(s, opcode(8, x, y, 0xE), r);
            &&& t.v[15] * 256 + t.v[x] == s.v[x] * 2
            &&& t.v[15] <= 1
            &&& forall|k: int| 0 <= k < 15 && k != x ==> t.v[k] == s.v[k]
            &&& t == (CpuState { v: t.v, pc: (s.pc + 2) as u16, ..s })
        }),
{
    lemma_opcode_fields(8, x, y, 6);
    lemma_opcode_fields(8, x, y, 0xE);
}

/// `Fx07` reads the delay timer into Vx; `Fx15` sets the delay timer and
/// `Fx18` the sound timer from Vx.
pub proof fn law_timers(s: CpuState, x: int, r: u8)
    requires
        s.well_shaped(),
        0 <= x < 16,
        s.pc + 2 <= 0xFFFF,
    ensures
        step(s, opcode(0xF, x, 0, 7), r) == (CpuState {
            v: s.v.update(x, s.delay_timer),
            pc: (s.pc + 2) as u16,
            ..s
        }),
        step(s, opcode(0xF, x, 1, 5), r) == (CpuState {
            delay_timer: s.v[x],
            pc: (s.pc + 2) as u16,
            ..s
        }),
        step(s, opcode(0xF, x, 1, 8), r) == (CpuState {
            sound_timer: s.v[x],
            pc: (s.pc + 2) as u16,
            ..s
        }),
{
    lemma_opcode_fields(0xF, x, 0, 7);
    lemma_opcode_fields(0xF, x, 1, 5);
    lemma_opcode_fields(0xF, x, 1, 8);
}

/// `Fx1E` adds Vx to I modulo 65536 and sets VF exactly when the new I is
/// above 0xF00. Stated for Vx other than VF.
pub proof fn law_add_to_index(s: CpuState, x: int, r: u8)
    requires
        s.well_shaped(),
        0 <= x < 15,
        s.pc + 2 <= 0xFFFF,
    ensures
        ({
            let t = step(s, opcode(0xF, x, 1, 0xE), r);
            &&& t.i == (s.i + s.v[x]) % 0x10000
            &&& t.v[15] == (if t.i > 0xF00 { 1int } else { 0int })
            &&& forall|k: int| 0 <= k < 15 ==> t.v[k] == s.v[k]
            &&& t == (CpuState { i: t.i, v: t.v, pc: (s.pc + 2) as u16, ..s })
        }),
{
    lemma_opcode_fields(0xF, x, 1, 0xE);
}

/// `Fx33` writes the hundreds, tens and units of Vx at I, I + 1 and I + 2,
/// and nothing else of memory.
pub proof fn law_decimal_digits(s: CpuState, x: int, r: u8)
    requires
        s.well_shaped(),
        0 <= x < 16,
        s.i + 2 < 4096,
        s.pc + 2 <= 0xFFFF,
    ensures
        ({
            let t = step(s, opcode(0xF, x, 3, 3), r);
            let m = t.memory;
            &&& m[s.i as int] < 10 && m[s.i + 1] < 10 && m[s.i + 2] < 10
            &&& m[s.i as int] * 100 + m[s.i + 1] * 10 + m[s.i + 2] == s.v[x]
            &&& m.len() == s.memory.len()
            &&& forall|a: int| 0 <= a < 4096 && !(s.i <= a <= s.i + 2) ==> m[a] == s.memory[a]
            &&& t == (CpuState { memory: m, pc: (s.pc + 2) as u16, ..s })
        }),
{
    lemma_opcode_fields(0xF, x, 3, 3);
}

/// `Fx55` writes V0..Vx to memory from I on, and nothing else of memory;
/// `Fx65` reads V0..Vx from memory from I on, and leaves the registers above Vx.
pub proof fn law_store_and_load_registers(s: CpuState, x: int, r: u8)
    requires
        s.well_shaped(),
        0 <= x < 16,
        s.i + x < 4096,
        s.pc + 2 <= 0xFFFF,
    ensures
        ({
            let t = step(s, opcode(0xF, x, 5, 5), r);
            &&& t.memory.len() == s.memory.len()
            &&& forall|k: int| 0 <= k <= x ==> t.memory[s.i + k] == s.v[k]
            &&& forall|a: int| 0 <= a < 4096 && !(s.i <= a <= s.i + x) ==> t.memory[a] == s.memory[a]
            &&& t == (CpuState { memory: t.memory, pc: (s.pc + 2) as u16, ..s })
        }),
        ({
            let t = step(s, opcode(0xF, x, 6, 5), r);
            &&& t.v.len() == 16
            &&& forall|k: int| 0 <= k <= x ==> t.v[k] == s.memory[s.i + k]
            &&& forall|k: int| x < k < 16 ==> t.v[k] == s.v[k]
            &&& t == (CpuState { v: t.v, pc: (s.pc + 2) as u16, ..s })
        }),
{
    lemma_opcode_fields(0xF, x, 5, 5);
    lemma_opcode_fields(0xF, x, 6, 5);
}

/// A tick executes the opcode made of the byte at the program counter
/// (high) and the byte after it (low); at or past the last byte of memory it
/// executes opcode 0.
pub proof fn law_tick_runs_opcode_at_pc(s: CpuState, r: u8)
    requires
        s.well_shaped(),
    ensures
        s.pc < 4095 ==> tick_spec(s, r) == step(
            s,
            (s.memory[s.pc as int] * 256 + s.memory[s.pc + 1]) as u16,
            r,
        ),
        s.pc >= 4095 ==> tick_spec(s, r) == step(s, 0, r),
{
}

/// Pixel (`px`, `py`) of a display as 0 or 1: row `py` is eight bytes, the
/// leftmost pixel of each byte in its high bit.
pub open spec fn lit(display: Seq<u8>, px: int, py: int) -> u8 {
    (display[py * 8 + px / 8] >> ((7 - px % 8) as u8)) & 1u8
}

/// Column `col` of sprite row `row` at I, as 0 or 1, the leftmost in the high bit.
pub open spec fn sprite_dot(s: CpuState, row: int, col: int) -> u8 {
    (s.memory[s.i + row] >> ((7 - col) as u8)) & 1u8
}

/// The column where `Dxyn` draws: Vx modulo 64, where VF reads as 0.
pub open spec fn draw_column(s: CpuState, x: int) -> int {
    if x == 15 {
        0
    } else {
        (s.v[x] % 64) as int
    }
}

/// The row where `Dxyn` draws: Vy modulo 32, where VF reads as 0.
pub open spec fn draw_row(s: CpuState, y: int) -> int {
    if y == 15 {
        0
    } else {
        (s.v[y] % 32) as int
    }
}

/// Whether the sprite of height `n` at (`sx`, `sy`) lies on pixel (`px`, `py`).
pub open spec fn in_sprite(sx: int, sy: int, n: int, px: int, py: int) -> bool {
    sx <= px < sx + 8 && sy <= py < sy + n
}

/// Whether a sprite dot that is 1 lies on a lit pixel.
pub open spec fn erases_lit_pixel(s: CpuState, sx: int, sy: int, n: int, px: int, py: int) -> bool {
    &&& 0 <= px < 64
    &&& 0 <= py < 32
    &&& in_sprite(sx, sy, n, px, py)
    &&& lit(s.display, px, py) == 1
    &&& sprite_dot(s, py - sy, px - sx) == 1
}

/// `Dxyn` draws the `n` sprite bytes at I as rows of eight pixels from
/// (Vx mod 64, Vy mod 32): each on-screen pixel under the sprite becomes its
/// old value exclusive-or the sprite's dot, every other pixel keeps its
/// value, and parts past the right or bottom edge are cut off. VF becomes 1
/// exactly when a dot that is 1 fell on a lit pixel. Nothing else but the
/// program counter changes.
pub proof fn law_draw_sprite(s: CpuState, x: int, y: int, n: int, r: u8)
    requires
        s.well_shaped(),
        0 <= x < 16,
        0 <= y < 16,
        0 <= n < 16,
        s.pc + 2 <= 0xFFFF,
    ensures
        ({
            let t = step(s, opcode(0xD, x, y, n), r);
            let sx = draw_column(s, x);
            let sy = draw_row(s, y);
            &&& forall|px: int, py: int|
                0 <= px < 64 && 0 <= py < 32 ==> #[trigger] lit(t.display, px, py) == if in_sprite(
                    sx,
                    sy,
                    n,
                    px,
                    py,
                ) {
                    lit(s.display, px, py) ^ sprite_dot(s, py - sy, px - sx)
                } else {
                    lit(s.display, px, py)
                }
            &&& t.v[15] == if exists|px: int, py: int| #[trigger] erases_lit_pixel(s, sx, sy, n, px, py) {
                1u8
            } else {
                0u8
            }
            &&& t.display.len() == s.display.len()
            &&& forall|k: int| 0 <= k < 15 ==> t.v[k] == s.v[k]
            &&& t == (CpuState { display: t.display, v: t.v, pc: (s.pc + 2) as u16, ..s })
        }),
{
    lemma_opcode_fields(0xD, x, y, n);
    let t = step(s, opcode(0xD, x, y, n), r);
    let sx = draw_column(s, x);
    let sy = draw_row(s, y);
    assert(origin_x(s, x as u8) == sx);
    assert(origin_y(s, y as u8) == sy);
    assert(t.display == drawn_display(s, sx, sy, n as u8));
    assert(t.v == s.v.update(15, flag(collides(s, sx, sy, n as u8))));
    assert forall|px: int, py: int| 0 <= px < 64 && 0 <= py < 32 implies #[trigger] lit(t.display, px, py)
        == if in_sprite(sx, sy, n, px, py) {
        lit(s.display, px, py) ^ sprite_dot(s, py - sy, px - sx)
    } else {
        lit(s.display, px, py)
    } by {
        lemma_pixel_position(px, py, px, py);
        lemma_drawn_pixel(s, sx, sy, n as u8, px, py);
        lemma_extract_bit(t.display[py * 8 + px / 8], (7 - px % 8) as u8);
        lemma_extract_bit(s.display[py * 8 + px / 8], (7 - px % 8) as u8);
        let a = lit(s.display, px, py);
        let b = lit(t.display, px, py);
        assert(pixel(s.display, px, py) == (a == 1u8));
        assert(pixel(t.display, px, py) == (b == 1u8));
        if in_sprite(sx, sy, n, px, py) {
            lemma_extract_bit(s.memory[s.i + (py - sy)], (7 - (px - sx)) as u8);
            let d = sprite_dot(s, py - sy, px - sx);
            assert(flips(s, sx, sy, n as u8, px, py) == (d == 1u8));
            lemma_xor_of_bits(a, d);
            assert(b == a ^ d);
        } else {
            assert(!flips(s, sx, sy, n as u8, px, py));
            assert(b == a);
        }
    }
    if collides(s, sx, sy, n as u8) {
        let (px, py) = choose|px: int, py: int|
            #[trigger] flips(s, sx, sy, n as u8, px, py) && pixel(s.display, px, py);
        assert(erases_lit_pixel(s, sx, sy, n, px, py));
    }
    if exists|px: int, py: int| #[trigger] erases_lit_pixel(s, sx, sy, n, px, py) {
        let (px, py) = choose|px: int, py: int| #[trigger] erases_lit_pixel(s, sx, sy, n, px, py);
        assert(flips(s, sx, sy, n as u8, px, py) && pixel(s.display, px, py));
    }
}

} // verus!
