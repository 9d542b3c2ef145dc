//! The mathematical model of the CHIP-8 machine: its state, the decoding of
//! opcodes into instructions, and what each instruction does to the state.
use vstd::prelude::*;
use crate::bits::{byte_bit, word_bit};

verus! {

/// A state with every byte, word and register zero and the program counter
/// at the program start.
pub open spec fn blank_state() -> CpuState {
    CpuState {
        memory: Seq::new(4096, |k: int| 0u8),
        stack: Seq::new(16, |k: int| 0u16),
        display: Seq::new(256, |k: int| 0u8),
        v: Seq::new(16, |k: int| 0u8),
        i: 0,
        pc: 0x200,
        sp: 0,
        delay_timer: 0,
        sound_timer: 0,
        keys: 0,
    }
}

/// `memory` with `bytes` written from address `at` on.
pub open spec fn load_bytes(memory: Seq<u8>, at: int, bytes: Seq<u8>) -> Seq<u8> {
    Seq::new(
        memory.len(),
        |k: int|
            if at <= k < at + bytes.len() {
                bytes[k - at]
            } else {
                memory[k]
            },
    )
}

/// The state of a freshly created or reset machine: blank, with the font at address 0.
pub open spec fn initial_state(fonts: Seq<u8>) -> CpuState {
    CpuState { memory: load_bytes(blank_state().memory, 0, fonts), ..blank_state() }
}

/// The whole machine state as mathematical values.
#[verifier::ext_equal]
pub struct CpuState {
    pub memory: Seq<u8>,
    pub stack: Seq<u16>,
    pub display: Seq<u8>,
    pub v: Seq<u8>,
    pub i: u16,
    pub pc: u16,
    pub sp: u8,
    pub delay_timer: u8,
    pub sound_timer: u8,
    pub keys: u16,
}

impl CpuState {
    /// The sizes that the machine's arrays always have.
    pub open spec fn well_shaped(self) -> bool {
        &&& self.memory.len() == 4096
        &&& self.stack.len() == 16
        &&& self.display.len() == 256
        &&& self.v.len() == 16
    }
}

/// What an instruction does to the program counter.
#[allow(non_camel_case_types)]
#[derive(Debug, Clone, Copy, PartialEq, Eq, Structural)]
pub enum PcOpertion {
    NEXT,
    SKIP,
    JUMP(u16),
}

/// A decoded CHIP-8 instruction; register operands are nibbles, addresses
/// are twelve bits and immediate values are bytes.
#[derive(Debug, Clone, Copy, PartialEq, Eq, Structural)]
pub enum Instruction {
    Sys(u16),
    Cls,
    Ret,
    Jp(u16),
    JpV0(u16),
    Call(u16),
    SeKk(u8, u8),
    SeY(u8, u8),
    SneKk(u8, u8),
    SneY(u8, u8),
    LdKk(u8, u8),
    LdY(u8, u8),
    LdI(u16),
    LdDt(u8),
    SetDt(u8),
    SetSt(u8),
    LdX(u8),
    LdF(u8),
    LdB(u8),
    LdIs(u8),
    LdVx(u8),
    AddKk(u8, u8),
    AddY(u8, u8),
    AddI(u8),
    Sub(u8, u8),
    Subn(u8, u8),
    Or(u8, u8),
    And(u8, u8),
    Xor(u8, u8),
    Shr(u8, u8),
    Shl(u8, u8),
    Rnd(u8, u8),
    Drw(u8, u8, u8),
    Skp(u8),
    Sknp(u8),
}

/// The four nibbles of an opcode, most significant first.
pub open spec fn nibbles(op: u16) -> (u8, u8, u8, u8) {
    ((op / 0x1000) as u8, ((op / 0x100) % 0x10) as u8, ((op / 0x10) % 0x10) as u8, (op % 0x10) as u8)
}

/// The instruction that an opcode stands for, or `None` for an unknown opcode.
pub open spec fn decode(op: u16) -> Option<Instruction> {
    let nnn = op % 0x1000;
    let kk = (op % 0x100) as u8;
    let (a, x, y, n) = nibbles(op);
    match (a, x, y, n) {
        (0x0, 0x0, 0xE, 0x0) => Some(Instruction::Cls),
        (0x0, 0x0, 0xE, 0xE) => Some(Instruction::Ret),
        (0x0, _, _, _) => Some(Instruction::Sys(nnn)),
        (0x1, _, _, _) => Some(Instruction::Jp(nnn)),
        (0x2, _, _, _) => Some(Instruction::Call(nnn)),
        (0x3, _, _, _) => Some(Instruction::SeKk(x, kk)),
        (0x4, _, _, _) => Some(Instruction::SneKk(x, kk)),
        (0x5, _, _, 0x0) => Some(Instruction::SeY(x, y)),
        (0x6, _, _, _) => Some(Instruction::LdKk(x, kk)),
        (0x7, _, _, _) => Some(Instruction::AddKk(x, kk)),
        (0x8, _, _, 0x0) => Some(Instruction::LdY(x, y)),
        (0x8, _, _, 0x1) => Some(Instruction::Or(x, y)),
        (0x8, _, _, 0x2) => Some(Instruction::And(x, y)),
        (0x8, _, _, 0x3) => Some(Instruction::Xor(x, y)),
        (0x8, _, _, 0x4) => Some(Instruction::AddY(x, y)),
        (0x8, _, _, 0x5) => Some(Instruction::Sub(x, y)),
        (0x8, _, _, 0x6) => Some(Instruction::Shr(x, y)),
        (0x8, _, _, 0x7) => Some(Instruction::Subn(x, y)),
        (0x8, _, _, 0xE) => Some(Instruction::Shl(x, y)),
        (0x9, _, _, 0x0) => Some(Instruction::SneY(x, y)),
        (0xA, _, _, _) => Some(Instruction::LdI(nnn)),
        (0xB, _, _, _) => Some(Instruction::JpV0(nnn)),
        (0xC, _, _, _) => Some(Instruction::Rnd(x, kk)),
        (0xD, _, _, _) => Some(Instruction::Drw(x, y, n)),
        (0xE, _, 0x9, 0xE) => Some(Instruction::Skp(x)),
        (0xE, _, 0xA, 0x1) => Some(Instruction::Sknp(x)),
        (0xF, _, 0x0, 0x7) => Some(Instruction::LdDt(x)),
        (0xF, _, 0x0, 0xA) => Some(Instruction::LdX(x)),
        (0xF, _, 0x1, 0x5) => Some(Instruction::SetDt(x)),
        (0xF, _, 0x1, 0x8) => Some(Instruction::SetSt(x)),
        (0xF, _, 0x1, 0xE) => Some(Instruction::AddI(x)),
        (0xF, _, 0x2, 0x9) => Some(Instruction::LdF(x)),
        (0xF, _, 0x3, 0x3) => Some(Instruction::LdB(x)),
        (0xF, _, 0x5, 0x5) => Some(Instruction::LdIs(x)),
        (0xF, _, 0x6, 0x5) => Some(Instruction::LdVx(x)),
        _ => None,
    }
}

/// The opcode at the program counter: two bytes, high byte first, or 0 when
/// the program counter is at or past the last byte of memory.
pub open spec fn fetch(s: CpuState) -> u16 {
    if s.pc >= 4095 {
        0
    } else {
        (s.memory[s.pc as int] * 256 + s.memory[s.pc + 1]) as u16
    }
}

/// Whether key `k` of the keypad is down in the key bit set `keys`.
pub open spec fn key_down(keys: u16, k: int) -> bool {
    word_bit(keys, k as u16)
}

/// The lowest key at or above `k` that is down.
pub open spec fn first_key_from(keys: u16, k: int) -> Option<u8>
    decreases 16 - k,
{
    if k >= 16 {
        None
    } else if key_down(keys, k) {
        Some(k as u8)
    } else {
        first_key_from(keys, k + 1)
    }
}

/// The value 1 for `true` and 0 for `false`.
pub open spec fn flag(b: bool) -> u8 {
    if b {
        1
    } else {
        0
    }
}

/// The state with register `x` set to `val`.
pub open spec fn set_v(s: CpuState, x: int, val: u8) -> CpuState {
    CpuState { v: s.v.update(x, val), ..s }
}

/// Whether pixel (`px`, `py`) of a display is on; a display row is eight
/// bytes, the leftmost pixel in the high bit.
pub open spec fn pixel(display: Seq<u8>, px: int, py: int) -> bool {
    byte_bit(display[py * 8 + px / 8], (7 - px % 8) as u8)
}

/// The column at which `Dxyn` draws; register F is cleared before it is read.
pub open spec fn origin_x(s: CpuState, x: u8) -> int {
    (s.v.update(15, 0u8)[x as int] % 64) as int
}

/// The row at which `Dxyn` draws; register F is cleared before it is read.
pub open spec fn origin_y(s: CpuState, y: u8) -> int {
    (s.v.update(15, 0u8)[y as int] % 32) as int
}

/// How many sprite rows of height `n` starting at row `sy` fall on the screen.
pub open spec fn visible_rows(sy: int, n: u8) -> int {
    if sy + n <= 32 {
        n as int
    } else {
        32 - sy
    }
}

/// Whether a sprite of height `n` at (`sx`, `sy`) covers the on-screen pixel (`px`, `py`).
pub open spec fn covers(sx: int, sy: int, n: u8, px: int, py: int) -> bool {
    &&& sx <= px < sx + 8
    &&& px < 64
    &&& sy <= py < sy + n
    &&& py < 32
}

/// Whether the sprite at `i` drawn at (`sx`, `sy`) flips pixel (`px`, `py`).
pub open spec fn flips(s: CpuState, sx: int, sy: int, n: u8, px: int, py: int) -> bool {
    &&& covers(sx, sy, n, px, py)
    &&& byte_bit(s.memory[s.i + (py - sy)], (7 - (px - sx)) as u8)
}

/// The byte whose bits, from the most significant down, are the eight flags.
pub open spec fn bits_byte(f0: bool, f1: bool, f2: bool, f3: bool, f4: bool, f5: bool, f6: bool, f7: bool) -> u8 {
    (if f0 { 0x80u8 } else { 0u8 }) | (if f1 { 0x40u8 } else { 0u8 }) | (if f2 { 0x20u8 } else { 0u8 }) | (
    if f3 { 0x10u8 } else { 0u8 }) | (if f4 { 0x08u8 } else { 0u8 }) | (if f5 { 0x04u8 } else { 0u8 }) | (
    if f6 { 0x02u8 } else { 0u8 }) | (if f7 { 0x01u8 } else { 0u8 })
}

/// The pixels of display byte `b` that a sprite flips, as a byte.
pub open spec fn flip_mask(s: CpuState, sx: int, sy: int, n: u8, b: int) -> u8 {
    let py = b / 8;
    let x0 = (b % 8) * 8;
    bits_byte(
        flips(s, sx, sy, n, x0, py),
        flips(s, sx, sy, n, x0 + 1, py),
        flips(s, sx, sy, n, x0 + 2, py),
        flips(s, sx, sy, n, x0 + 3, py),
        flips(s, sx, sy, n, x0 + 4, py),
        flips(s, sx, sy, n, x0 + 5, py),
        flips(s, sx, sy, n, x0 + 6, py),
        flips(s, sx, sy, n, x0 + 7, py),
    )
}

/// The display after a sprite is XOR-ed onto it.
pub open spec fn drawn_display(s: CpuState, sx: int, sy: int, n: u8) -> Seq<u8> {
    Seq::new(s.display.len(), |b: int| s.display[b] ^ flip_mask(s, sx, sy, n, b))
}

/// Whether drawing the sprite turns off a pixel that was on.
pub open spec fn collides(s: CpuState, sx: int, sy: int, n: u8) -> bool {
    exists|px: int, py: int| #[trigger] flips(s, sx, sy, n, px, py) && pixel(s.display, px, py)
}

/// The state after `Dxyn`.
pub open spec fn draw(s: CpuState, x: u8, y: u8, n: u8) -> CpuState {
    let sx = origin_x(s, x);
    let sy = origin_y(s, y);
    CpuState {
        display: drawn_display(s, sx, sy, n),
        v: s.v.update(15, flag(collides(s, sx, sy, n))),
        ..s
    }
}

/// `SKIP` when `c` holds, else `NEXT`.
pub open spec fn skip_if(c: bool) -> PcOpertion {
    if c {
        PcOpertion::SKIP
    } else {
        PcOpertion::NEXT
    }
}

/// What an instruction does to the program counter, given the state before it.
pub open spec fn pc_effect(s: CpuState, ins: Instruction) -> PcOpertion {
    match ins {
        Instruction::Ret => PcOpertion::JUMP(s.stack[s.sp - 1]),
        Instruction::Jp(a) => PcOpertion::JUMP(a),
        Instruction::JpV0(a) => PcOpertion::JUMP((a + s.v[0]) as u16),
        Instruction::Call(a) => PcOpertion::JUMP(a),
        Instruction::SeKk(x, kk) => skip_if(s.v[x as int] == kk),
        Instruction::SneKk(x, kk) => skip_if(s.v[x as int] != kk),
        Instruction::SeY(x, y) => skip_if(s.v[x as int] == s.v[y as int]),
        Instruction::SneY(x, y) => skip_if(s.v[x as int] != s.v[y as int]),
        Instruction::LdX(_) => if first_key_from(s.keys, 0) is Some {
            PcOpertion::NEXT
        } else {
            PcOpertion::JUMP(s.pc)
        },
        Instruction::Skp(x) => skip_if(key_down(s.keys, s.v[x as int] as int)),
        Instruction::Sknp(x) => skip_if(!key_down(s.keys, s.v[x as int] as int)),
        _ => PcOpertion::NEXT,
    }
}

/// What an instruction does to everything but the program counter; `r` is
/// the random byte that `Cxkk` draws.
pub open spec fn state_effect(s: CpuState, ins: Instruction, r: u8) -> CpuState {
    match ins {
        Instruction::Cls => CpuState { display: Seq::new(s.display.len(), |k: int| 0u8), ..s },
        Instruction::Ret => CpuState { sp: (s.sp - 1) as u8, ..s },
        Instruction::Call(_) => CpuState {
            stack: s.stack.update(s.sp as int, (s.pc + 2) as u16),
            sp: (s.sp + 1) as u8,
            ..s
        },
        Instruction::LdKk(x, kk) => set_v(s, x as int, kk),
        Instruction::LdY(x, y) => set_v(s, x as int, s.v[y as int]),
        Instruction::LdI(a) => CpuState { i: a, ..s },
        Instruction::LdDt(x) => set_v(s, x as int, s.delay_timer),
        Instruction::SetDt(x) => CpuState { delay_timer: s.v[x as int], ..s },
        Instruction::SetSt(x) => CpuState { sound_timer: s.v[x as int], ..s },
        Instruction::LdX(x) => match first_key_from(s.keys, 0) {
            Some(k) => set_v(s, x as int, k),
            None => s,
        },
        Instruction::LdF(x) => CpuState { i: (s.v[x as int] * 5) as u16, ..s },
        Instruction::LdB(x) => {
            let val = s.v[x as int];
            CpuState {
                memory: s.memory.update(s.i as int, val / 100).update(s.i + 1, (val / 10) % 10).update(
                    s.i + 2,
                    val % 10,
                ),
                ..s
            }
        },
        Instruction::LdIs(x) => CpuState {
            memory: Seq::new(
                s.memory.len(),
                |k: int|
                    if s.i <= k <= s.i + x {
                        s.v[k - s.i]
                    } else {
                        s.memory[k]
                    },
            ),
            ..s
        },
        Instruction::LdVx(x) => CpuState {
            v: Seq::new(
                s.v.len(),
                |k: int|
                    if k <= x {
                        s.memory[s.i + k]
                    } else {
                        s.v[k]
                    },
            ),
            ..s
        },
        Instruction::AddKk(x, kk) => set_v(s, x as int, ((s.v[x as int] + kk) % 256) as u8),
        Instruction::AddY(x, y) => {
            let sum = s.v[x as int] + s.v[y as int];
            set_v(set_v(s, 15, flag(sum > 255)), x as int, (sum % 256) as u8)
        },
        Instruction::AddI(x) => {
            let i = ((s.i + s.v[x as int]) % 0x10000) as u16;
            CpuState { i: i, v: s.v.update(15, flag(i > 0x0F00)), ..s }
        },
        Instruction::Sub(x, y) => {
            let t = set_v(s, 15, flag(s.v[x as int] > s.v[y as int]));
            set_v(t, x as int, ((t.v[x as int] - t.v[y as int] + 256) % 256) as u8)
        },
        Instruction::Subn(x, y) => {
            let t = set_v(s, 15, flag(s.v[y as int] > s.v[x as int]));
            set_v(t, x as int, ((t.v[y as int] - t.v[x as int] + 256) % 256) as u8)
        },
        Instruction::Or(x, y) => set_v(s, x as int, s.v[x as int] | s.v[y as int]),
        Instruction::And(x, y) => set_v(s, x as int, s.v[x as int] & s.v[y as int]),
        Instruction::Xor(x, y) => set_v(s, x as int, s.v[x as int] ^ s.v[y as int]),
        Instruction::Shr(x, _) => {
            let t = set_v(s, 15, s.v[x as int] % 2);
            set_v(t, x as int, t.v[x as int] / 2)
        },
        Instruction::Shl(x, _) => {
            let t = set_v(s, 15, s.v[x as int] / 128);
            set_v(t, x as int, ((t.v[x as int] * 2) % 256) as u8)
        },
        Instruction::Rnd(x, kk) => set_v(s, x as int, r & kk),
        Instruction::Drw(x, y, n) => draw(s, x, y, n),
        _ => s,
    }
}

/// Whether the program counter can take the step without overflowing.
pub open spec fn pc_fits(pc: u16, op: PcOpertion) -> bool {
    match op {
        PcOpertion::NEXT => pc + 2 <= 0xFFFF,
        PcOpertion::SKIP => pc + 4 <= 0xFFFF,
        PcOpertion::JUMP(_) => true,
    }
}

/// The program counter after the step.
pub open spec fn next_pc(pc: u16, op: PcOpertion) -> u16 {
    match op {
        PcOpertion::NEXT => (pc + 2) as u16,
        PcOpertion::SKIP => (pc + 4) as u16,
        PcOpertion::JUMP(a) => a,
    }
}

/// Whether an instruction's operands are in range and it stays inside the
/// stack and memory: the inputs on which it is defined.
pub open spec fn instruction_ok(s: CpuState, ins: Instruction) -> bool {
    match ins {
        Instruction::Ret => 1 <= s.sp <= 16,
        Instruction::JpV0(a) => a + s.v[0] <= 0xFFFF,
        Instruction::Call(_) => s.sp < 16 && s.pc + 2 <= 0xFFFF,
        Instruction::SeKk(x, _) => x < 16,
        Instruction::SneKk(x, _) => x < 16,
        Instruction::LdKk(x, _) => x < 16,
        Instruction::AddKk(x, _) => x < 16,
        Instruction::Rnd(x, _) => x < 16,
        Instruction::LdDt(x) => x < 16,
        Instruction::SetDt(x) => x < 16,
        Instruction::SetSt(x) => x < 16,
        Instruction::LdX(x) => x < 16,
        Instruction::LdF(x) => x < 16,
        Instruction::AddI(x) => x < 16,
        Instruction::SeY(x, y) => x < 16 && y < 16,
        Instruction::SneY(x, y) => x < 16 && y < 16,
        Instruction::LdY(x, y) => x < 16 && y < 16,
        Instruction::AddY(x, y) => x < 16 && y < 16,
        Instruction::Sub(x, y) => x < 16 && y < 16,
        Instruction::Subn(x, y) => x < 16 && y < 16,
        Instruction::Or(x, y) => x < 16 && y < 16,
        Instruction::And(x, y) => x < 16 && y < 16,
        Instruction::Xor(x, y) => x < 16 && y < 16,
        Instruction::Shr(x, _) => x < 16,
        Instruction::Shl(x, _) => x < 16,
        Instruction::LdB(x) => x < 16 && s.i + 2 < 4096,
        Instruction::LdIs(x) => x < 16 && s.i + x < 4096,
        Instruction::LdVx(x) => x < 16 && s.i + x < 4096,
        Instruction::Drw(x, y, n) => x < 16 && y < 16 && (visible_rows(origin_y(s, y), n) == 0 || s.i
            + visible_rows(origin_y(s, y), n) <= 4096),
        Instruction::Skp(x) => x < 16 && s.v[x as int] < 16,
        Instruction::Sknp(x) => x < 16 && s.v[x as int] < 16,
        _ => true,
    }
}

/// Whether executing `op` is defined on `s`: an unknown opcode is always
/// answered (with an error); a known one must stay in range.
pub open spec fn step_ok(s: CpuState, op: u16) -> bool {
    match decode(op) {
        Some(ins) => instruction_ok(s, ins) && pc_fits(s.pc, pc_effect(s, ins)),
        None => true,
    }
}

/// The state after executing `op` on `s`, with `r` the random byte that
/// `Cxkk` draws; an unknown opcode leaves the state as it is.
pub open spec fn step(s: CpuState, op: u16, r: u8) -> CpuState {
    match decode(op) {
        Some(ins) => {
            let t = state_effect(s, ins, r);
            CpuState { pc: next_pc(s.pc, pc_effect(s, ins)), ..t }
        },
        None => s,
    }
}

/// Whether `op` is the random-number instruction `Cxkk`.
pub open spec fn draws_random(op: u16) -> bool {
    decode(op) matches Some(Instruction::Rnd(_, _))
}

/// Whether one tick is defined on `s`: the opcode at the program counter is
/// known and executing it stays in range.
pub open spec fn can_step(s: CpuState) -> bool {
    decode(fetch(s)) is Some && step_ok(s, fetch(s))
}

/// The state after one tick.
pub open spec fn tick_spec(s: CpuState, r: u8) -> CpuState {
    step(s, fetch(s), r)
}

} // verus!
