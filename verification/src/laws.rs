//! Properties of the machine that span instructions: what every step keeps,
//! and what one instruction undoes of another.
use vstd::prelude::*;
use crate::bits::{byte_bit, lemma_xor_twice, lemma_mask_within};
use crate::machine::{
    CpuState, Instruction, decode, step, step_ok, pixel, origin_x, origin_y, drawn_display,
    collides, flips, flip_mask, flag, draw, initial_state, load_bytes, first_key_from, pc_effect, PcOpertion,
};
use crate::screen::{lemma_pixel_position, lemma_drawn_pixel};

verus! {

/// Every step keeps the sizes of memory, stack, display and registers, and
/// keeps the stack pointer within the stack.
pub proof fn law_step_keeps_shape(s: CpuState, op: u16, r: u8)
    requires
        s.well_shaped(),
        s.sp <= 16,
        step_ok(s, op),
    ensures
        step(s, op, r).well_shaped(),
        step(s, op, r).sp <= 16,
{
}

/// Whether the sprite flips a pixel that is off.
pub open spec fn covers_dark_pixel(s: CpuState, sx: int, sy: int, n: u8) -> bool {
    exists|px: int, py: int| #[trigger] flips(s, sx, sy, n, px, py) && !pixel(s.display, px, py)
}

/// Drawing the same sprite twice at the same place leaves the display as it
/// was: drawing is exclusive or. Memory, I and V0..VE are untouched, and the
/// second draw sets VF exactly when the sprite covers a pixel that was off
/// before the first draw.
pub proof fn law_draw_twice_restores_display(s: CpuState, op: u16, r1: u8, r2: u8)
    requires
        s.well_shaped(),
        decode(op) matches Some(Instruction::Drw(_, _, _)),
    ensures
        step(step(s, op, r1), op, r2).display == s.display,
        step(step(s, op, r1), op, r2).memory == s.memory,
        step(step(s, op, r1), op, r2).i == s.i,
        forall|k: int| 0 <= k < 15 ==> step(step(s, op, r1), op, r2).v[k] == s.v[k],
        ({
            let (x, y, n) = (
                decode(op)->Some_0->Drw_0,
                decode(op)->Some_0->Drw_1,
                decode(op)->Some_0->Drw_2,
            );
            step(step(s, op, r1), op, r2).v[15] == flag(
                covers_dark_pixel(s, origin_x(s, x), origin_y(s, y), n),
            )
        }),
{
    if let Some(Instruction::Drw(x, y, n)) = decode(op) {
        let s1 = step(s, op, r1);
        assert(s1 == CpuState { pc: s1.pc, ..draw(s, x, y, n) });
        lemma_draw_twice(s, s1, x, y, n);
        assert(step(s1, op, r2) == CpuState { pc: step(s1, op, r2).pc, ..draw(s1, x, y, n) });
    }
}

/// The two draws of `law_draw_twice_restores_display`, on the model of `Dxyn`.
proof fn lemma_draw_twice(s: CpuState, s1: CpuState, x: u8, y: u8, n: u8)
    requires
        s.well_shaped(),
        s1 == (CpuState { pc: s1.pc, ..draw(s, x, y, n) }),
    ensures
        draw(s1, x, y, n).display == s.display,
        draw(s1, x, y, n).memory == s.memory,
        draw(s1, x, y, n).i == s.i,
        forall|k: int| 0 <= k < 15 ==> draw(s1, x, y, n).v[k] == s.v[k],
        draw(s1, x, y, n).v[15] == flag(covers_dark_pixel(s, origin_x(s, x), origin_y(s, y), n)),
{
    assert(s1.v.update(15, 0u8) =~= s.v.update(15, 0u8));
    let sx = origin_x(s, x);
    let sy = origin_y(s, y);
    assert(origin_x(s1, x) == sx);
    assert(origin_y(s1, y) == sy);
    assert forall|b: int| 0 <= b < 256 implies flip_mask(s1, sx, sy, n, b) == flip_mask(
        s,
        sx,
        sy,
        n,
        b,
    ) by {}
    assert forall|b: int| 0 <= b < 256 implies #[trigger] drawn_display(s1, sx, sy, n)[b]
        == s.display[b] by {
        lemma_xor_twice(s.display[b], flip_mask(s, sx, sy, n, b));
    }
    assert(draw(s1, x, y, n).display =~= s.display);
    let before_off = covers_dark_pixel(s, sx, sy, n);
    if collides(s1, sx, sy, n) {
        let (px, py) = choose|px: int, py: int|
            #[trigger] flips(s1, sx, sy, n, px, py) && pixel(s1.display, px, py);
        lemma_drawn_pixel(s, sx, sy, n, px, py);
        assert(flips(s, sx, sy, n, px, py) && !pixel(s.display, px, py));
    }
    if before_off {
        let (px, py) = choose|px: int, py: int|
            #[trigger] flips(s, sx, sy, n, px, py) && !pixel(s.display, px, py);
        lemma_drawn_pixel(s, sx, sy, n, px, py);
        assert(flips(s1, sx, sy, n, px, py) && pixel(s1.display, px, py));
    }
}

/// Drawing onto a blank display never turns a pixel off, so the collision
/// flag is cleared.
pub proof fn law_draw_on_blank_display_no_collision(s: CpuState, op: u16, r: u8)
    requires
        s.well_shaped(),
        forall|b: int| 0 <= b < 256 ==> s.display[b] == 0,
        decode(op) matches Some(Instruction::Drw(_, _, _)),
    ensures
        step(s, op, r).v[15] == 0,
{
    if let Some(Instruction::Drw(x, y, n)) = decode(op) {
        let sx = origin_x(s, x);
        let sy = origin_y(s, y);
        if collides(s, sx, sy, n) {
            let (px, py) = choose|px: int, py: int|
                #[trigger] flips(s, sx, sy, n, px, py) && pixel(s.display, px, py);
            let b = py * 8 + px / 8;
            let k = (7 - px % 8) as u8;
            assert(s.display[b] == 0);
            assert(!byte_bit(0u8, k)) by (bit_vector);
        }
    }
}

/// A subroutine call followed by a return comes back to the instruction
/// after the call, with the stack pointer where it was.
pub proof fn law_call_then_return(s: CpuState, call: u16, r1: u8, r2: u8)
    requires
        s.well_shaped(),
        decode(call) matches Some(Instruction::Call(_)),
        step_ok(s, call),
    ensures
        step_ok(step(s, call, r1), 0x00EE),
        step(step(s, call, r1), 0x00EE, r2).pc == s.pc + 2,
        step(step(s, call, r1), 0x00EE, r2).sp == s.sp,
{
    assert(decode(0x00EE) == Some(Instruction::Ret));
}

/// Storing registers V0..Vx to memory at I and later loading them back
/// gives V0..Vx as they were stored, whatever the registers held in between,
/// as long as that memory and I are unchanged; the registers above Vx keep
/// their values.
pub proof fn law_store_then_load_registers(
    s: CpuState,
    s1: CpuState,
    store: u16,
    load: u16,
    r1: u8,
    r2: u8,
)
    requires
        s.well_shaped(),
        s1.well_shaped(),
        decode(store) matches Some(Instruction::LdIs(x)) && decode(load) == Some(
            Instruction::LdVx(x),
        ),
        step_ok(s, store),
        s1.memory == step(s, store, r1).memory,
        s1.i == s.i,
    ensures
        ({
            let x = decode(store)->Some_0->LdIs_0;
            let v = step(s1, load, r2).v;
            &&& v.len() == 16
            &&& forall|k: int| 0 <= k <= x ==> v[k] == s.v[k]
            &&& forall|k: int| x < k < 16 ==> v[k] == s1.v[k]
        }),
{
}

/// `Fx33` writes the three decimal digits of Vx: each below ten, and
/// together they make Vx.
pub proof fn law_bcd_digits(s: CpuState, op: u16, r: u8)
    requires
        s.well_shaped(),
        decode(op) matches Some(Instruction::LdB(_)),
        step_ok(s, op),
    ensures
        ({
            let m = step(s, op, r).memory;
            let x = decode(op)->Some_0->LdB_0;
            &&& m[s.i as int] < 10
            &&& m[s.i + 1] < 10
            &&& m[s.i + 2] < 10
            &&& m[s.i as int] * 100 + m[s.i + 1] * 10 + m[s.i + 2] == s.v[x as int]
        }),
{
}

/// `Cxkk` only sets bits of Vx that are set in `kk`.
pub proof fn law_random_within_mask(s: CpuState, op: u16, r: u8)
    requires
        s.well_shaped(),
        decode(op) matches Some(Instruction::Rnd(_, _)),
        step_ok(s, op),
    ensures
        ({
            let (x, kk) = (decode(op)->Some_0->Rnd_0, decode(op)->Some_0->Rnd_1);
            let vx = step(s, op, r).v[x as int];
            &&& vx & kk == vx
            &&& vx <= kk
        }),
{
    let x = decode(op)->Some_0->Rnd_0;
    let kk = decode(op)->Some_0->Rnd_1;
    lemma_mask_within(r, kk);
}

/// `Fx0A` waits: with no key down it changes nothing, the program counter
/// included, so the same instruction runs again.
pub proof fn law_wait_for_key(s: CpuState, op: u16, r: u8)
    requires
        s.well_shaped(),
        decode(op) matches Some(Instruction::LdX(_)),
        first_key_from(s.keys, 0) is None,
    ensures
        step(s, op, r) == s,
{
}

/// A fresh machine holds the font image at address 0, zero everywhere else,
/// and starts at the program start.
pub proof fn law_initial_state(fonts: Seq<u8>)
    requires
        fonts.len() == 80,
    ensures
        initial_state(fonts).well_shaped(),
        initial_state(fonts).memory.subrange(0, 80) == fonts,
        forall|k: int| 80 <= k < 4096 ==> initial_state(fonts).memory[k] == 0,
        initial_state(fonts).pc == 0x200,
        initial_state(fonts).sp == 0,
        forall|b: int| 0 <= b < 256 ==> initial_state(fonts).display[b] == 0,
{
    assert(initial_state(fonts).memory.subrange(0, 80) =~= fonts);
}

/// Bytes written into memory read back from where they were written, and
/// the rest of memory is unchanged.
pub proof fn law_load_bytes_read_back(memory: Seq<u8>, at: int, bytes: Seq<u8>)
    requires
        0 <= at,
        at + bytes.len() <= memory.len(),
    ensures
        load_bytes(memory, at, bytes).len() == memory.len(),
        load_bytes(memory, at, bytes).subrange(at, at + bytes.len()) == bytes,
        forall|k: int|
            0 <= k < memory.len() && !(at <= k < at + bytes.len()) ==> load_bytes(memory, at, bytes)[k]
                == memory[k],
{
    assert(load_bytes(memory, at, bytes).subrange(at, at + bytes.len()) =~= bytes);
}

/// Each skip instruction skips exactly when its counterpart does not:
/// `3xkk` against `4xkk`, `5xy0` against `9xy0`, and `Ex9E` against `ExA1`.
pub proof fn law_skips_are_complementary(s: CpuState, x: u8, y: u8, kk: u8)
    ensures
        (pc_effect(s, Instruction::SeKk(x, kk)) == PcOpertion::SKIP) != (pc_effect(
            s,
            Instruction::SneKk(x, kk),
        ) == PcOpertion::SKIP),
        (pc_effect(s, Instruction::SeY(x, y)) == PcOpertion::SKIP) != (pc_effect(
            s,
            Instruction::SneY(x, y),
        ) == PcOpertion::SKIP),
        (pc_effect(s, Instruction::Skp(x)) == PcOpertion::SKIP) != (pc_effect(s, Instruction::Sknp(x))
            == PcOpertion::SKIP),
{
}

/// Executed from the same state, a skip opcode and its counterpart on the
/// same operands land on different instructions: exactly one of them skips.
pub proof fn law_skip_opcodes_are_complementary(s: CpuState, skip: u16, other: u16, r: u8)
    requires
        s.pc + 4 <= 0xFFFF,
        ({
            ||| decode(skip) matches Some(Instruction::SeKk(x, kk)) && decode(other) == Some(
                Instruction::SneKk(x, kk),
            )
            ||| decode(skip) matches Some(Instruction::SeY(x, y)) && decode(other) == Some(
                Instruction::SneY(x, y),
            )
            ||| decode(skip) matches Some(Instruction::Skp(x)) && decode(other) == Some(
                Instruction::Sknp(x),
            )
        }),
    ensures
        (step(s, skip, r).pc == s.pc + 4) != (step(s, other, r).pc == s.pc + 4),
        step(s, skip, r).pc == s.pc + 4 || step(s, skip, r).pc == s.pc + 2,
        step(s, other, r).pc == s.pc + 4 || step(s, other, r).pc == s.pc + 2,
{
}

/// `00E0` turns every pixel off.
pub proof fn law_clear_screen(s: CpuState, r: u8)
    requires
        s.well_shaped(),
    ensures
        forall|px: int, py: int|
            0 <= px < 64 && 0 <= py < 32 ==> !#[trigger] pixel(step(s, 0x00E0, r).display, px, py),
{
    assert(decode(0x00E0) == Some(Instruction::Cls));
    assert forall|px: int, py: int| 0 <= px < 64 && 0 <= py < 32 implies !#[trigger] pixel(
        step(s, 0x00E0, r).display,
        px,
        py,
    ) by {
        lemma_pixel_position(px, py, px, py);
        let k = (7 - px % 8) as u8;
        assert(!byte_bit(0u8, k)) by (bit_vector);
    }
}

} // verus!
