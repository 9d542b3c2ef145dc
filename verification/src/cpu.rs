//! The CHIP-8 processor: memory, registers, stack, timers, keypad and display,
//! and the execution of one instruction per tick.
use vstd::prelude::*;
use crate::bits::{
    byte_bit, lemma_word_mask_bit, lemma_byte_shifts, lemma_extract_bit, lemma_xor_of_bits,
    lemma_set_bit, lemma_clear_bit, lemma_opcode_fields, lemma_join_bytes,
};
use crate::screen::{
    lemma_pixel_position, lemma_draw_pixel_step, lemma_draw_row_done, lemma_draw_done, partly_drawn,
    collides_before,
};
use crate::random::random_byte;
use crate::semantics::lit;
use crate::machine::{
    CpuState, Instruction, PcOpertion, pixel, state_effect, pc_effect, flag, first_key_from, instruction_ok,
    origin_x, origin_y, visible_rows, decode, step, step_ok, can_step, pc_fits, blank_state,
    initial_state, load_bytes, fetch, tick_spec, draws_random,
};

verus! {

/// Pixels per display row.
pub const DISPLAY_HEIGHT: usize = 64;

/// Display rows.
pub const DISPLAY_WIDTH: usize = 32;

/// Bytes of display memory, one bit per pixel.
pub const DISPLAY_BYTES: usize = (DISPLAY_HEIGHT * DISPLAY_WIDTH) / 8;

/// Bytes of RAM.
pub const MAX_MEMORY: usize = 4096;

/// Where programs are loaded and where execution starts.
pub const PROGRAM_START: usize = 0x200;

/// Bytes of the built-in font, loaded at address 0.
pub const FONT_BYTES: usize = 80;

const WORD: u16 = 2;

/// Why loading or executing failed.
#[derive(Debug, PartialEq, Eq, Structural)]
pub enum Chip8Error {
    /// The font image is longer than the font area; it holds the length given.
    FontsCorrupted(usize),
    /// The program does not fit between the program start and the end of memory; it holds the length given.
    RomTooBig(usize),
    /// The opcode stands for no instruction.
    UnknownOpcode(u16),
}

/// A CHIP-8 machine.
pub struct Chip8CPU {
    memory: [u8; MAX_MEMORY],
    stack: [u16; 16],
    display: [u8; DISPLAY_BYTES],
    v: [u8; 16],
    i: u16,
    pc: u16,
    sp: u8,
    delay_timer: u8,
    sound_timer: u8,
    /// Keypad state: bit k is set while key k is down.
    pub keys: u16,
}

impl View for Chip8CPU {
    type V = CpuState;

    closed spec fn view(&self) -> CpuState {
        CpuState {
            memory: self.memory@,
            stack: self.stack@,
            display: self.display@,
            v: self.v@,
            i: self.i,
            pc: self.pc,
            sp: self.sp,
            delay_timer: self.delay_timer,
            sound_timer: self.sound_timer,
            keys: self.keys,
        }
    }
}

/// Decodes an opcode into the instruction it stands for, or `None` for an
/// unknown opcode.
pub fn decode_opcode(opcode: u16) -> (ins: Option<Instruction>)
    ensures
        ins == decode(opcode),
{
    proof {
        lemma_opcode_fields(opcode);
    }
    let nnn = opcode & 0x0FFF;
    let x = ((opcode & 0x0F00) >> 8) as u8;
    let y = ((opcode & 0x00F0) >> 4) as u8;
    let kk: u8 = (opcode & 0x00FF) as u8;
    let n = (opcode & 0x000F) as u8;
    let nibbles = (((opcode & 0xF000) >> 12) as u8, x, y, n);
    match nibbles {
        (0x0, 0x0, 0xE, 0x0) => Some(Instruction::Cls),
        (0x0, 0x0, 0xE, 0xE) => Some(Instruction::Ret),
        (0x0, _, _, _) => Some(Instruction::Sys(nnn)),
        (0x1, _, _, _) => Some(Instruction::Jp(nnn)),
        (0x2, _, _, _) => Some(Instruction::Call(nnn)),
        (0x3, _, _, _) => Some(Instruction::SeKk(x, kk)),
        (0x4, _, _, _) => Some(Instruction::SneKk(x, kk)),
        (0x5, _, _, 0x0) => Some(Instruction::SeY(x, y)),
        (0x6, _, _, _) => Some(Instruction::LdKk(x, kk)),
        (0x7, _, _, _) => Some(Instruction::AddKk(x, kk)),
        (0x8, _, _, 0x0) => Some(Instruction::LdY(x, y)),
        (0x8, _, _, 0x1) => Some(Instruction::Or(x, y)),
        (0x8, _, _, 0x2) => Some(Instruction::And(x, y)),
        (0x8, _, _, 0x3) => Some(Instruction::Xor(x, y)),
        (0x8, _, _, 0x4) => Some(Instruction::AddY(x, y)),
        (0x8, _, _, 0x5) => Some(Instruction::Sub(x, y)),
        (0x8, _, _, 0x6) => Some(Instruction::Shr(x, y)),
        (0x8, _, _, 0x7) => Some(Instruction::Subn(x, y)),
        (0x8, _, _, 0xE) => Some(Instruction::Shl(x, y)),
        (0x9, _, _, 0x0) => Some(Instruction::SneY(x, y)),
        (0xA, _, _, _) => Some(Instruction::LdI(nnn)),
        (0xB, _, _, _) => Some(Instruction::JpV0(nnn)),
        (0xC, _, _, _) => Some(Instruction::Rnd(x, kk)),
        (0xD, _, _, _) => Some(Instruction::Drw(x, y, n)),
        (0xE, _, 0x9, 0xE) => Some(Instruction::Skp(x)),
        (0xE, _, 0xA, 0x1) => Some(Instruction::Sknp(x)),
        (0xF, _, 0x0, 0x7) => Some(Instruction::LdDt(x)),
        (0xF, _, 0x0, 0xA) => Some(Instruction::LdX(x)),
        (0xF, _, 0x1, 0x5) => Some(Instruction::SetDt(x)),
        (0xF, _, 0x1, 0x8) => Some(Instruction::SetSt(x)),
        (0xF, _, 0x1, 0xE) => Some(Instruction::AddI(x)),
        (0xF, _, 0x2, 0x9) => Some(Instruction::LdF(x)),
        (0xF, _, 0x3, 0x3) => Some(Instruction::LdB(x)),
        (0xF, _, 0x5, 0x5) => Some(Instruction::LdIs(x)),
        (0xF, _, 0x6, 0x5) => Some(Instruction::LdVx(x)),
        _ => None,
    }
}

/// The display as 32 rows of 64 pixels, `true` where a pixel is on.
pub fn display_rows(display: &[u8; DISPLAY_BYTES]) -> (rows: Vec<Vec<bool>>)
    ensures
        rows@.len() == DISPLAY_WIDTH,
        forall|py: int| 0 <= py < DISPLAY_WIDTH ==> #[trigger] rows@[py]@.len() == DISPLAY_HEIGHT,
        forall|py: int, px: int|
            0 <= py < DISPLAY_WIDTH && 0 <= px < DISPLAY_HEIGHT ==> #[trigger] rows@[py]@[px] == pixel(
                display@,
                px,
                py,
            ),
        forall|py: int, px: int|
            0 <= py < DISPLAY_WIDTH && 0 <= px < DISPLAY_HEIGHT ==> #[trigger] rows@[py]@[px] == (lit(
                display@,
                px,
                py,
            ) == 1u8),
{
    let mut rows: Vec<Vec<bool>> = Vec::new();
    let mut row: usize = 0;
    while row < DISPLAY_WIDTH
        invariant
            row <= DISPLAY_WIDTH,
            rows@.len() == row,
            forall|py: int| 0 <= py < row ==> #[trigger] rows@[py]@.len() == DISPLAY_HEIGHT,
            forall|py: int, px: int|
                0 <= py < row && 0 <= px < DISPLAY_HEIGHT ==> #[trigger] rows@[py]@[px] == pixel(
                    display@,
                    px,
                    py,
                ),
            forall|py: int, px: int|
                0 <= py < row && 0 <= px < DISPLAY_HEIGHT ==> #[trigger] rows@[py]@[px] == (lit(
                    display@,
                    px,
                    py,
                ) == 1u8),
        decreases DISPLAY_WIDTH - row,
    {
        let mut line: Vec<bool> = Vec::new();
        let mut col: usize = 0;
        while col < DISPLAY_HEIGHT
            invariant
                row < DISPLAY_WIDTH,
                col <= DISPLAY_HEIGHT,
                line@.len() == col,
                forall|px: int| 0 <= px < col ==> #[trigger] line@[px] == pixel(display@, px, row as int),
                forall|px: int| 0 <= px < col ==> #[trigger] line@[px] == (lit(display@, px, row as int) == 1u8),
            decreases DISPLAY_HEIGHT - col,
        {
            let byte_idx = row * 8 + (col / 8);
            let bit_idx = (7 - (col % 8)) as u8;
            proof {
                lemma_pixel_position(col as int, row as int, col as int, row as int);
                lemma_extract_bit(display[byte_idx as int], bit_idx);
            }
            let pixel_on = (display[byte_idx] >> bit_idx) & 1;
            line.push(pixel_on == 1);
            col += 1;
        }
        rows.push(line);
        row += 1;
    }
    rows
}

impl Chip8CPU {
    /// The machine's arrays have their fixed sizes.
    pub proof fn lemma_well_shaped(&self)
        ensures
            self@.well_shaped(),
    {
    }

    /// The display memory: row `y` is bytes `8 * y .. 8 * y + 8`, the
    /// leftmost pixel of each byte in its high bit.
    pub fn get_display(&self) -> (display: &[u8; DISPLAY_BYTES])
        ensures
            display@ == self@.display,
    {
        &self.display
    }

    /// The sound timer; a tone plays while it is above zero.
    pub fn sound_timer(&self) -> (timer: u8)
        ensures
            timer == self@.sound_timer,
    {
        self.sound_timer
    }

    /// Sets the keypad state: bit `k` set means key `k` is down.
    pub fn set_keys(&mut self, keys: u16)
        ensures
            final(self)@ == (CpuState { keys: keys, ..old(self)@ }),
    {
        self.keys = keys;
    }

    /// Counts the delay timer down by one, stopping at zero.
    pub fn decrease_delay_timer(&mut self)
        ensures
            final(self)@ == (CpuState {
                delay_timer: if old(self)@.delay_timer > 0 {
                    (old(self)@.delay_timer - 1) as u8
                } else {
                    0
                },
                ..old(self)@
            }),
    {
        if self.delay_timer > 0 {
            self.delay_timer -= 1;
        }
    }

    /// Counts the sound timer down by one, stopping at zero.
    pub fn decrease_sound_timer(&mut self)
        ensures
            final(self)@ == (CpuState {
                sound_timer: if old(self)@.sound_timer > 0 {
                    (old(self)@.sound_timer - 1) as u8
                } else {
                    0
                },
                ..old(self)@
            }),
    {
        if self.sound_timer > 0 {
            self.sound_timer -= 1;
        }
    }

    /// A new machine with the given font image at address 0 and the program
    /// counter at the program start. The image must fill the font area: a
    /// longer one is refused with `FontsCorrupted` and its length.
    pub fn new(fonts: &[u8]) -> (res: Result<Self, Chip8Error>)
        requires
            fonts@.len() >= FONT_BYTES,
        ensures
            fonts@.len() > FONT_BYTES ==> res == Err::<Self, Chip8Error>(
                Chip8Error::FontsCorrupted(fonts@.len() as usize),
            ),
            fonts@.len() == FONT_BYTES ==> (res matches Ok(cpu) && cpu@ == initial_state(fonts@)),
    {
        let mut cpu = Chip8CPU {
            memory: [0;MAX_MEMORY],
            stack: [0;16],
            display: [0;DISPLAY_BYTES],
            v: [0;16],
            i: 0,
            pc: 0x200,
            sp: 0,
            delay_timer: 0,
            sound_timer: 0,
            keys: 0,
        };
        assert(cpu@ == blank_state());
        cpu.load_fonts(fonts)?;

        Ok(cpu)
    }

    /// Puts the machine back into its initial state: every byte, register and
    /// timer zero, the keys released, the program counter at the program
    /// start, and the font image loaded again. A font image longer than the
    /// font area is refused with `FontsCorrupted` after the machine was
    /// cleared.
    pub fn reset(&mut self, fonts: &[u8]) -> (res: Result<(), Chip8Error>)
        requires
            fonts@.len() >= FONT_BYTES,
        ensures
            fonts@.len() > FONT_BYTES ==> res == Err::<(), Chip8Error>(
                Chip8Error::FontsCorrupted(fonts@.len() as usize),
            ) && final(self)@ == blank_state(),
            fonts@.len() == FONT_BYTES ==> res is Ok && final(self)@ == initial_state(fonts@),
    {
        self.memory = [0;MAX_MEMORY];
        self.stack = [0;16];
        self.display = [0;DISPLAY_BYTES];
        self.v = [0;16];
        self.i = 0;
        self.pc = 0x200;
        self.sp = 0;
        self.delay_timer = 0;
        self.sound_timer = 0;
        self.keys = 0;
        assert(self@ == blank_state());

        self.load_fonts(fonts)?;
        Ok(())
    }

    /// Copies a program into memory at the program start. A program longer
    /// than the memory above the program start is refused with `RomTooBig`
    /// and its length, and memory is left as it was.
    pub fn load_rom(&mut self, rom: &[u8]) -> (res: Result<(), Chip8Error>)
        ensures
            rom@.len() > MAX_MEMORY - PROGRAM_START ==> res == Err::<(), Chip8Error>(
                Chip8Error::RomTooBig(rom@.len() as usize),
            ) && final(self)@ == old(self)@,
            rom@.len() <= MAX_MEMORY - PROGRAM_START ==> res is Ok && final(self)@ == (CpuState {
                memory: load_bytes(old(self)@.memory, PROGRAM_START as int, rom@),
                ..old(self)@
            }),
    {
        if rom.len() > MAX_MEMORY - 0x200 {
            return Err(Chip8Error::RomTooBig(rom.len()));
        }
        self.copy_into_memory(0x200, rom);

        Ok(())
    }

    fn load_fonts(&mut self, fonts: &[u8]) -> (res: Result<(), Chip8Error>)
        requires
            fonts@.len() >= FONT_BYTES,
        ensures
            fonts@.len() > FONT_BYTES ==> res == Err::<(), Chip8Error>(
                Chip8Error::FontsCorrupted(fonts@.len() as usize),
            ) && final(self)@ == old(self)@,
            fonts@.len() == FONT_BYTES ==> res is Ok && final(self)@ == (CpuState {
                memory: load_bytes(old(self)@.memory, 0, fonts@),
                ..old(self)@
            }),
    {
        if fonts.len() > 80 {
            return Err(Chip8Error::FontsCorrupted(fonts.len()));
        }
        self.copy_into_memory(0, fonts);

        Ok(())
    }

    /// Writes `bytes` into memory from address `at` on.
    fn copy_into_memory(&mut self, at: usize, bytes: &[u8])
        requires
            at + bytes@.len() <= MAX_MEMORY,
        ensures
            final(self)@ == (CpuState {
                memory: load_bytes(old(self)@.memory, at as int, bytes@),
                ..old(self)@
            }),
    {
        let ghost s0 = self@;
        let mut k: usize = 0;
        while k < bytes.len()
            invariant
                k <= bytes@.len(),
                at + bytes@.len() <= MAX_MEMORY,
                s0.well_shaped(),
                self@ == (CpuState { memory: self@.memory, ..s0 }),
                self@.memory.len() == s0.memory.len(),
                forall|a: int|
                    0 <= a < s0.memory.len() ==> self@.memory[a] == (if at <= a < at + k {
                        bytes@[a - at]
                    } else {
                        s0.memory[a]
                    }),
            decreases bytes@.len() - k,
        {
            self.memory[at + k] = bytes[k];
            k += 1;
        }
        assert(self@.memory =~= load_bytes(s0.memory, at as int, bytes@));
    }

    /// Runs one instruction cycle: fetches the opcode at the program counter
    /// and executes it. Only a `Cxkk` opcode draws a random byte; every
    /// other opcode determines the next state.
    pub fn tick(&mut self)
        requires
            can_step(old(self)@),
        ensures
            exists|r: u8| final(self)@ == #[trigger] tick_spec(old(self)@, r),
            !draws_random(fetch(old(self)@)) ==> final(self)@ == tick_spec(old(self)@, 0),
    {
        let ghost s0 = self@;
        let opcode = self.fetch_oppcode();

        self.execute(opcode).expect("error lol");
        proof {
            let r = choose|r: u8| self@ == #[trigger] step(s0, opcode, r);
            assert(self@ == tick_spec(s0, r));
        }
    }

    fn fetch_oppcode(&self) -> (opcode: u16)
        ensures
            opcode == fetch(self@),
    {
        if usize::from(self.pc) >= MAX_MEMORY - 1 {
            return 0;
        }
        let high = self.memory[self.pc as usize] as u16;
        let low = self.memory[(self.pc + 1) as usize] as u16;
        proof {
            lemma_join_bytes(high, low);
        }
        (high << 8u16) | low
    }

    /// Whether a tick is defined on this machine: the opcode at the program
    /// counter is known, and executing it neither leaves the stack, memory or
    /// keypad nor carries the program counter past the end of its range.
    pub fn can_tick(&self) -> (ok: bool)
        ensures
            ok == can_step(self@),
    {
        let opcode = self.fetch_oppcode();
        self.can_execute(opcode)
    }

    /// Whether `opcode` is known and executing it on this machine neither
    /// leaves the stack, memory or keypad nor carries the program counter
    /// past the end of its range.
    pub fn can_execute(&self, opcode: u16) -> (ok: bool)
        ensures
            ok == (decode(opcode) is Some && step_ok(self@, opcode)),
    {
        match decode_opcode(opcode) {
            Some(ins) => self.instruction_fits(ins),
            None => false,
        }
    }

    /// Whether some key of the keypad is down.
    fn key_pressed(&self) -> (down: bool)
        ensures
            down == first_key_from(self.keys, 0) is Some,
    {
        let mut key: u16 = 0;
        while key < 16
            invariant
                key <= 16,
                first_key_from(self.keys, 0) == first_key_from(self.keys, key as int),
            decreases 16 - key,
        {
            proof {
                lemma_word_mask_bit(self.keys, key);
            }
            if (self.keys & (1u16 << key)) != 0 {
                return true;
            }
            key += 1;
        }
        false
    }

    /// Whether a program counter step fits in sixteen bits.
    fn pc_step_fits(&self, op: PcOpertion) -> (ok: bool)
        ensures
            ok == pc_fits(self.pc, op),
    {
        match op {
            PcOpertion::NEXT => self.pc <= 0xFFFF - WORD,
            PcOpertion::SKIP => self.pc <= 0xFFFF - 2 * WORD,
            PcOpertion::JUMP(_) => true,
        }
    }

    /// Whether executing `ins` is defined on this machine.
    fn instruction_fits(&self, ins: Instruction) -> (ok: bool)
        ensures
            ok == (instruction_ok(self@, ins) && pc_fits(self.pc, pc_effect(self@, ins))),
    {
        let regs_ok = match ins {
            Instruction::SeKk(x, _) | Instruction::SneKk(x, _) | Instruction::LdKk(x, _)
            | Instruction::AddKk(x, _) | Instruction::Rnd(x, _) | Instruction::LdDt(x)
            | Instruction::SetDt(x) | Instruction::SetSt(x) | Instruction::LdX(x) | Instruction::LdF(x) | Instruction::AddI(x)
            | Instruction::Shr(x, _) | Instruction::Shl(x, _) | Instruction::LdB(x)
            | Instruction::LdIs(x) | Instruction::LdVx(x) | Instruction::Skp(x)
            | Instruction::Sknp(x) => x < 16,
            Instruction::SeY(x, y) | Instruction::SneY(x, y) | Instruction::LdY(x, y)
            | Instruction::AddY(x, y) | Instruction::Sub(x, y) | Instruction::Subn(x, y)
            | Instruction::Or(x, y) | Instruction::And(x, y) | Instruction::Xor(x, y)
            | Instruction::Drw(x, y, _) => x < 16 && y < 16,
            _ => true,
        };
        if !regs_ok {
            return false;
        }
        let op = match ins {
            Instruction::Ret => {
                if self.sp < 1 || self.sp > 16 {
                    return false;
                }
                PcOpertion::JUMP(self.stack[(self.sp - 1) as usize])
            },
            Instruction::Jp(a) => PcOpertion::JUMP(a),
            Instruction::JpV0(a) => {
                if a > 0xFFFF - self.v[0] as u16 {
                    return false;
                }
                PcOpertion::JUMP(a + self.v[0] as u16)
            },
            Instruction::Call(a) => {
                if self.sp >= 16 || self.pc > 0xFFFF - WORD {
                    return false;
                }
                PcOpertion::JUMP(a)
            },
            Instruction::SeKk(x, kk) => if self.v[x as usize] == kk {
                PcOpertion::SKIP
            } else {
                PcOpertion::NEXT
            },
            Instruction::SneKk(x, kk) => if self.v[x as usize] != kk {
                PcOpertion::SKIP
            } else {
                PcOpertion::NEXT
            },
            Instruction::SeY(x, y) => if self.v[x as usize] == self.v[y as usize] {
                PcOpertion::SKIP
            } else {
                PcOpertion::NEXT
            },
            Instruction::SneY(x, y) => if self.v[x as usize] != self.v[y as usize] {
                PcOpertion::SKIP
            } else {
                PcOpertion::NEXT
            },
            Instruction::LdX(_) => if self.key_pressed() {
                PcOpertion::NEXT
            } else {
                PcOpertion::JUMP(self.pc)
            },
            Instruction::LdB(_) => {
                if self.i as usize + 2 >= MAX_MEMORY {
                    return false;
                }
                PcOpertion::NEXT
            },
            Instruction::LdIs(x) | Instruction::LdVx(x) => {
                if self.i as usize + x as usize >= MAX_MEMORY {
                    return false;
                }
                PcOpertion::NEXT
            },
            Instruction::Drw(_, y, n) => {
                let start_y: usize = if y == 0xF {
                    0
                } else {
                    (self.v[y as usize] as usize) % DISPLAY_WIDTH
                };
                let rows: usize = if start_y + n as usize <= DISPLAY_WIDTH {
                    n as usize
                } else {
                    DISPLAY_WIDTH - start_y
                };
                if rows > 0 && self.i as usize + rows > MAX_MEMORY {
                    return false;
                }
                PcOpertion::NEXT
            },
            Instruction::Skp(x) | Instruction::Sknp(x) => {
                let key = self.v[x as usize];
                if key >= 16 {
                    return false;
                }
                proof {
                    lemma_word_mask_bit(self.keys, key as u16);
                }
                let down = (self.keys & (1u16 << (key as u16))) != 0;
                if (down && ins == Instruction::Skp(x)) || (!down && ins == Instruction::Sknp(x)) {
                    PcOpertion::SKIP
                } else {
                    PcOpertion::NEXT
                }
            },
            _ => PcOpertion::NEXT,
        };
        assert(op == pc_effect(self@, ins));
        self.pc_step_fits(op)
    }

    /// Executes one opcode. An unknown opcode is refused with
    /// `UnknownOpcode` and leaves the machine as it was; a known one is
    /// carried out and the program counter moves on, skips, or jumps. A
    /// `Cxkk` opcode draws its random byte from the thread-local generator;
    /// no other opcode draws one.
    pub fn execute(&mut self, opcode: u16) -> (res: Result<(), Chip8Error>)
        requires
            step_ok(old(self)@, opcode),
        ensures
            decode(opcode) is None ==> res == Err::<(), Chip8Error>(Chip8Error::UnknownOpcode(opcode))
                && final(self)@ == old(self)@,
            decode(opcode) is Some ==> res is Ok,
            exists|r: u8| final(self)@ == #[trigger] step(old(self)@, opcode, r),
            !draws_random(opcode) ==> final(self)@ == step(old(self)@, opcode, 0),
    {
        proof {
            lemma_opcode_fields(opcode);
        }
        let random = if (opcode & 0xF000) == 0xC000 {
            random_byte()
        } else {
            0
        };
        let res = self.execute_with_random(opcode, random);
        assert(self@ == step(old(self)@, opcode, random));
        res
    }

    /// Executes one opcode as `execute` does, with `random` as the byte that
    /// a `Cxkk` opcode draws.
    #[verifier::rlimit(40)]
    pub fn execute_with_random(&mut self, opcode: u16, random: u8) -> (res: Result<(), Chip8Error>)
        requires
            step_ok(old(self)@, opcode),
        ensures
            decode(opcode) is None ==> res == Err::<(), Chip8Error>(Chip8Error::UnknownOpcode(opcode))
                && final(self)@ == old(self)@,
            decode(opcode) is Some ==> res is Ok,
            final(self)@ == step(old(self)@, opcode, random),
    {
        let ghost s0 = self@;
        proof {
            lemma_opcode_fields(opcode);
        }
        let nnn = opcode & 0x0FFF;
        let x = ((opcode & 0x0F00) >> 8) as usize;
        let y = ((opcode & 0x00F0) >> 4) as usize;
        let kk: u8 = (opcode & 0x00FF) as u8;
        let n = (opcode & 0x000F) as u8;

        // The opcode is four nibbles.
        let nibbles = (
            ((opcode & 0xF000) >> 12) as u8,
            ((opcode & 0x0F00) >> 8) as u8,
            ((opcode & 0x00F0) >> 4) as u8,
            (opcode & 0x000F) as u8,
        );

        let pc_op = match nibbles {
            (0x0, 0x0, 0xE, 0x0) => self.cls(),
            (0x0, 0x0, 0xE, 0xE) => self.ret(),
            (0x0, _, _, _) => self.sys(nnn),
            (0x1, _, _, _) => self.jp(nnn),
            (0x2, _, _, _) => self.call(nnn),
            (0x3, _, _, _) => self.se_kk(x, kk),
            (0x4, _, _, _) => self.sne_kk(x, kk),
            (0x5, _, _, 0x0) => self.se_y(x, y),
            (0x6, _, _, _) => self.ld_kk(x, kk),
            (0x7, _, _, _) => self.add_kk(x, kk),
            (0x8, _, _, 0x0) => self.ld_y(x, y),
            (0x8, _, _, 0x1) => self.or(x, y),
            (0x8, _, _, 0x2) => self.and(x, y),
            (0x8, _, _, 0x3) => self.xor(x, y),
            (0x8, _, _, 0x4) => self.add_y(x, y),
            (0x8, _, _, 0x5) => self.sub(x, y),
            (0x8, _, _, 0x6) => self.shr(x, y),
            (0x8, _, _, 0x7) => self.subn(x, y),
            (0x8, _, _, 0xE) => self.shl(x, y),
            (0x9, _, _, 0x0) => self.sne_y(x, y),
            (0xA, _, _, _) => self.ld_i(nnn),
            (0xB, _, _, _) => self.jp_v0(nnn),
            (0xC, _, _, _) => self.rnd(x, kk, random),
            (0xD, _, _, _) => self.drw(x, y, n),
            (0xE, _, 0x9, 0xE) => self.skp(x),
            (0xE, _, 0xA, 0x1) => self.sknp(x),
            (0xF, _, 0x0, 0x7) => self.ld_dt(x),
            (0xF, _, 0x0, 0xA) => self.ld_x(x),
            (0xF, _, 0x1, 0x5) => self.set_dt(x),
            (0xF, _, 0x1, 0x8) => self.set_st(x),
            (0xF, _, 0x1, 0xE) => self.add_i(x),
            (0xF, _, 0x2, 0x9) => self.ld_f(x),
            (0xF, _, 0x3, 0x3) => self.ld_b(x),
            (0xF, _, 0x5, 0x5) => self.ld_is(x),
            (0xF, _, 0x6, 0x5) => self.ld_vx(x),
            _ => {
                assert(step(s0, opcode, random) == s0);
                return Err(Chip8Error::UnknownOpcode(opcode));
            },
        };

        match pc_op {
            PcOpertion::NEXT => self.pc += WORD,
            PcOpertion::SKIP => self.pc += 2 * WORD,
            PcOpertion::JUMP(addr) => self.pc = addr,
        };
        assert(self@ == step(s0, opcode, random));

        Ok(())
    }

    fn sys(&mut self, _addr: u16) -> (op: PcOpertion)
        ensures
            final(self)@ == state_effect(old(self)@, Instruction::Sys(_addr), 0),
            op == pc_effect(old(self)@, Instruction::Sys(_addr)),
    {
        PcOpertion::NEXT
    }

    fn cls(&mut self) -> (op: PcOpertion)
        ensures
            final(self)@ == state_effect(old(self)@, Instruction::Cls, 0),
            op == pc_effect(old(self)@, Instruction::Cls),
    {
        let ghost s0 = self@;
        let mut k: usize = 0;
        while k < DISPLAY_BYTES
            invariant
                k <= DISPLAY_BYTES,
                self@ == (CpuState { display: self@.display, ..s0 }),
                forall|j: int| 0 <= j < k ==> self.display@[j] == 0,
            decreases DISPLAY_BYTES - k,
        {
            self.display[k] = 0;
            k += 1;
        }
        assert(self.display@ =~= Seq::new(s0.display.len(), |j: int| 0u8));
        PcOpertion::NEXT
    }

    fn ret(&mut self) -> (op: PcOpertion)
        requires
            instruction_ok(old(self)@, Instruction::Ret),
        ensures
            final(self)@ == state_effect(old(self)@, Instruction::Ret, 0),
            op == pc_effect(old(self)@, Instruction::Ret),
    {
        self.sp -= 1;
        PcOpertion::JUMP(self.stack[self.sp as usize])
    }

    fn jp(&mut self, addr: u16) -> (op: PcOpertion)
        ensures
            final(self)@ == state_effect(old(self)@, Instruction::Jp(addr), 0),
            op == pc_effect(old(self)@, Instruction::Jp(addr)),
    {
        PcOpertion::JUMP(addr)
    }

    fn jp_v0(&mut self, addr: u16) -> (op: PcOpertion)
        requires
            instruction_ok(old(self)@, Instruction::JpV0(addr)),
        ensures
            final(self)@ == state_effect(old(self)@, Instruction::JpV0(addr), 0),
            op == pc_effect(old(self)@, Instruction::JpV0(addr)),
    {
        PcOpertion::JUMP(addr + self.v[0x0] as u16)
    }

    fn call(&mut self, addr: u16) -> (op: PcOpertion)
        requires
            instruction_ok(old(self)@, Instruction::Call(addr)),
        ensures
            final(self)@ == state_effect(old(self)@, Instruction::Call(addr), 0),
            op == pc_effect(old(self)@, Instruction::Call(addr)),
    {
        self.stack[self.sp as usize] = self.pc + WORD;
        self.sp += 1;
        PcOpertion::JUMP(addr)
    }

    fn se_kk(&mut self, x: usize, kk: u8) -> (op: PcOpertion)
        requires
            instruction_ok(old(self)@, Instruction::SeKk(x as u8, kk)),
            x < 16,
        ensures
            final(self)@ == state_effect(old(self)@, Instruction::SeKk(x as u8, kk), 0),
            op == pc_effect(old(self)@, Instruction::SeKk(x as u8, kk)),
    {
        if self.v[x] == kk {
            return PcOpertion::SKIP;
        }
        PcOpertion::NEXT
    }

    fn se_y(&mut self, x: usize, y: usize) -> (op: PcOpertion)
        requires
            x < 16,
            y < 16,
        ensures
            final(self)@ == state_effect(old(self)@, Instruction::SeY(x as u8, y as u8), 0),
            op == pc_effect(old(self)@, Instruction::SeY(x as u8, y as u8)),
    {
        if self.v[x] == self.v[y] {
            return PcOpertion::SKIP;
        }
        PcOpertion::NEXT
    }

    fn sne_kk(&mut self, x: usize, kk: u8) -> (op: PcOpertion)
        requires
            x < 16,
        ensures
            final(self)@ == state_effect(old(self)@, Instruction::SneKk(x as u8, kk), 0),
            op == pc_effect(old(self)@, Instruction::SneKk(x as u8, kk)),
    {
        if self.v[x] != kk {
            return PcOpertion::SKIP;
        }
        PcOpertion::NEXT
    }

    fn sne_y(&mut self, x: usize, y: usize) -> (op: PcOpertion)
        requires
            x < 16,
            y < 16,
        ensures
            final(self)@ == state_effect(old(self)@, Instruction::SneY(x as u8, y as u8), 0),
            op == pc_effect(old(self)@, Instruction::SneY(x as u8, y as u8)),
    {
        if self.v[x] != self.v[y] {
            return PcOpertion::SKIP;
        }
        PcOpertion::NEXT
    }

    fn ld_kk(&mut self, x: usize, kk: u8) -> (op: PcOpertion)
        requires
            x < 16,
        ensures
            final(self)@ == state_effect(old(self)@, Instruction::LdKk(x as u8, kk), 0),
            op == pc_effect(old(self)@, Instruction::LdKk(x as u8, kk)),
    {
        self.v[x] = kk;
        PcOpertion::NEXT
    }

    fn ld_y(&mut self, x: usize, y: usize) -> (op: PcOpertion)
        requires
            x < 16,
            y < 16,
        ensures
            final(self)@ == state_effect(old(self)@, Instruction::LdY(x as u8, y as u8), 0),
            op == pc_effect(old(self)@, Instruction::LdY(x as u8, y as u8)),
    {
        self.v[x] = self.v[y];
        PcOpertion::NEXT
    }

    fn ld_i(&mut self, addr: u16) -> (op: PcOpertion)
        ensures
            final(self)@ == state_effect(old(self)@, Instruction::LdI(addr), 0),
            op == pc_effect(old(self)@, Instruction::LdI(addr)),
    {
        self.i = addr;
        PcOpertion::NEXT
    }

    fn ld_dt(&mut self, x: usize) -> (op: PcOpertion)
        requires
            x < 16,
        ensures
            final(self)@ == state_effect(old(self)@, Instruction::LdDt(x as u8), 0),
            op == pc_effect(old(self)@, Instruction::LdDt(x as u8)),
    {
        self.v[x] = self.delay_timer;
        PcOpertion::NEXT
    }

    fn set_dt(&mut self, x: usize) -> (op: PcOpertion)
        requires
            x < 16,
        ensures
            final(self)@ == state_effect(old(self)@, Instruction::SetDt(x as u8), 0),
            op == pc_effect(old(self)@, Instruction::SetDt(x as u8)),
    {
        self.delay_timer = self.v[x];
        PcOpertion::NEXT
    }

    fn set_st(&mut self, x: usize) -> (op: PcOpertion)
        requires
            x < 16,
        ensures
            final(self)@ == state_effect(old(self)@, Instruction::SetSt(x as u8), 0),
            op == pc_effect(old(self)@, Instruction::SetSt(x as u8)),
    {
        self.sound_timer = self.v[x];
        PcOpertion::NEXT
    }

    fn ld_x(&mut self, x: usize) -> (op: PcOpertion)
        requires
            x < 16,
        ensures
            final(self)@ == state_effect(old(self)@, Instruction::LdX(x as u8), 0),
            op == pc_effect(old(self)@, Instruction::LdX(x as u8)),
    {
        let mut key: u16 = 0;
        while key < 16
            invariant
                key <= 16,
                x < 16,
                self@ == old(self)@,
                first_key_from(self.keys, 0) == first_key_from(self.keys, key as int),
            decreases 16 - key,
        {
            proof {
                lemma_word_mask_bit(self.keys, key);
            }
            if (self.keys & (1u16 << key)) != 0 {
                self.v[x] = key as u8;
                return PcOpertion::NEXT;
            }
            key += 1;
        }
        PcOpertion::JUMP(self.pc)
    }

    fn ld_f(&mut self, x: usize) -> (op: PcOpertion)
        requires
            x < 16,
        ensures
            final(self)@ == state_effect(old(self)@, Instruction::LdF(x as u8), 0),
            op == pc_effect(old(self)@, Instruction::LdF(x as u8)),
    {
        self.i = (self.v[x] as u16) * 5;
        PcOpertion::NEXT
    }

    fn ld_b(&mut self, x: usize) -> (op: PcOpertion)
        requires
            instruction_ok(old(self)@, Instruction::LdB(x as u8)),
            x < 16,
        ensures
            final(self)@ == state_effect(old(self)@, Instruction::LdB(x as u8), 0),
            op == pc_effect(old(self)@, Instruction::LdB(x as u8)),
    {
        let v = self.v[x];
        self.memory[self.i as usize] = v / 100;
        self.memory[self.i as usize + 1] = (v / 10) % 10;
        self.memory[self.i as usize + 2] = v % 10;
        PcOpertion::NEXT
    }

    fn ld_is(&mut self, x: usize) -> (op: PcOpertion)
        requires
            instruction_ok(old(self)@, Instruction::LdIs(x as u8)),
            x < 16,
        ensures
            final(self)@ == state_effect(old(self)@, Instruction::LdIs(x as u8), 0),
            op == pc_effect(old(self)@, Instruction::LdIs(x as u8)),
    {
        let ghost s0 = self@;
        let mut n: usize = 0;
        while n <= x
            invariant
                n <= x + 1,
                x < 16,
                s0.i + x < 4096,
                self@ == (CpuState { memory: self@.memory, ..s0 }),
                self@.memory.len() == s0.memory.len(),
                forall|k: int|
                    0 <= k < s0.memory.len() ==> self@.memory[k] == (if s0.i <= k < s0.i + n {
                        s0.v[k - s0.i]
                    } else {
                        s0.memory[k]
                    }),
            decreases x + 1 - n,
        {
            self.memory[self.i as usize + n] = self.v[n];
            n += 1;
        }
        assert(self@.memory =~= state_effect(s0, Instruction::LdIs(x as u8), 0).memory);
        PcOpertion::NEXT
    }

    fn ld_vx(&mut self, x: usize) -> (op: PcOpertion)
        requires
            instruction_ok(old(self)@, Instruction::LdVx(x as u8)),
            x < 16,
        ensures
            final(self)@ == state_effect(old(self)@, Instruction::LdVx(x as u8), 0),
            op == pc_effect(old(self)@, Instruction::LdVx(x as u8)),
    {
        let ghost s0 = self@;
        let mut n: usize = 0;
        while n <= x
            invariant
                n <= x + 1,
                x < 16,
                s0.i + x < 4096,
                self@ == (CpuState { v: self@.v, ..s0 }),
                self@.v.len() == 16,
                forall|k: int|
                    0 <= k < 16 ==> self@.v[k] == (if k < n {
                        s0.memory[s0.i + k]
                    } else {
                        s0.v[k]
                    }),
            decreases x + 1 - n,
        {
            self.v[n] = self.memory[self.i as usize + n];
            n += 1;
        }
        assert(self@.v =~= state_effect(s0, Instruction::LdVx(x as u8), 0).v);
        PcOpertion::NEXT
    }

    fn add_kk(&mut self, x: usize, kk: u8) -> (op: PcOpertion)
        requires
            x < 16,
        ensures
            final(self)@ == state_effect(old(self)@, Instruction::AddKk(x as u8, kk), 0),
            op == pc_effect(old(self)@, Instruction::AddKk(x as u8, kk)),
    {
        self.v[x] = self.v[x].wrapping_add(kk);
        PcOpertion::NEXT
    }

    fn add_y(&mut self, x: usize, y: usize) -> (op: PcOpertion)
        requires
            x < 16,
            y < 16,
        ensures
            final(self)@ == state_effect(old(self)@, Instruction::AddY(x as u8, y as u8), 0),
            op == pc_effect(old(self)@, Instruction::AddY(x as u8, y as u8)),
    {
        let res = self.v[x].wrapping_add(self.v[y]);
        let overflow = (self.v[x] as u16) + (self.v[y] as u16) > 255;
        self.v[0xF] = if overflow {
            1
        } else {
            0
        };
        self.v[x] = res;
        PcOpertion::NEXT
    }

    fn add_i(&mut self, x: usize) -> (op: PcOpertion)
        requires
            x < 16,
        ensures
            final(self)@ == state_effect(old(self)@, Instruction::AddI(x as u8), 0),
            op == pc_effect(old(self)@, Instruction::AddI(x as u8)),
    {
        self.i = self.i.wrapping_add(self.v[x] as u16);
        self.v[0xF] = if self.i > 0x0F00 {
            1
        } else {
            0
        };
        PcOpertion::NEXT
    }

    fn sub(&mut self, x: usize, y: usize) -> (op: PcOpertion)
        requires
            x < 16,
            y < 16,
        ensures
            final(self)@ == state_effect(old(self)@, Instruction::Sub(x as u8, y as u8), 0),
            op == pc_effect(old(self)@, Instruction::Sub(x as u8, y as u8)),
    {
        self.v[0xF] = if self.v[x] > self.v[y] {
            1
        } else {
            0
        };
        self.v[x] = self.v[x].wrapping_sub(self.v[y]);
        PcOpertion::NEXT
    }

    fn subn(&mut self, x: usize, y: usize) -> (op: PcOpertion)
        requires
            x < 16,
            y < 16,
        ensures
            final(self)@ == state_effect(old(self)@, Instruction::Subn(x as u8, y as u8), 0),
            op == pc_effect(old(self)@, Instruction::Subn(x as u8, y as u8)),
    {
        self.v[0xF] = if self.v[y] > self.v[x] {
            1
        } else {
            0
        };
        self.v[x] = self.v[y].wrapping_sub(self.v[x]);
        PcOpertion::NEXT
    }

    fn or(&mut self, x: usize, y: usize) -> (op: PcOpertion)
        requires
            x < 16,
            y < 16,
        ensures
            final(self)@ == state_effect(old(self)@, Instruction::Or(x as u8, y as u8), 0),
            op == pc_effect(old(self)@, Instruction::Or(x as u8, y as u8)),
    {
        self.v[x] = self.v[x] | self.v[y];
        PcOpertion::NEXT
    }

    fn and(&mut self, x: usize, y: usize) -> (op: PcOpertion)
        requires
            x < 16,
            y < 16,
        ensures
            final(self)@ == state_effect(old(self)@, Instruction::And(x as u8, y as u8), 0),
            op == pc_effect(old(self)@, Instruction::And(x as u8, y as u8)),
    {
        self.v[x] = self.v[x] & self.v[y];
        PcOpertion::NEXT
    }

    fn xor(&mut self, x: usize, y: usize) -> (op: PcOpertion)
        requires
            x < 16,
            y < 16,
        ensures
            final(self)@ == state_effect(old(self)@, Instruction::Xor(x as u8, y as u8), 0),
            op == pc_effect(old(self)@, Instruction::Xor(x as u8, y as u8)),
    {
        self.v[x] = self.v[x] ^ self.v[y];
        PcOpertion::NEXT
    }

    fn shr(&mut self, x: usize, _y: usize) -> (op: PcOpertion)
        requires
            x < 16,
        ensures
            final(self)@ == state_effect(old(self)@, Instruction::Shr(x as u8, _y as u8), 0),
            op == pc_effect(old(self)@, Instruction::Shr(x as u8, _y as u8)),
    {
        proof {
            lemma_byte_shifts(self.v[x as int]);
        }
        self.v[0xF] = self.v[x] & 1;
        proof {
            lemma_byte_shifts(self.v[x as int]);
        }
        self.v[x] = self.v[x] >> 1u8;
        PcOpertion::NEXT
    }

    fn shl(&mut self, x: usize, _y: usize) -> (op: PcOpertion)
        requires
            x < 16,
        ensures
            final(self)@ == state_effect(old(self)@, Instruction::Shl(x as u8, _y as u8), 0),
            op == pc_effect(old(self)@, Instruction::Shl(x as u8, _y as u8)),
    {
        proof {
            lemma_byte_shifts(self.v[x as int]);
        }
        self.v[0xF] = (self.v[x] >> 7u8) & 1;
        proof {
            lemma_byte_shifts(self.v[x as int]);
        }
        self.v[x] = self.v[x] << 1u8;
        PcOpertion::NEXT
    }

    fn rnd(&mut self, x: usize, kk: u8, random: u8) -> (op: PcOpertion)
        requires
            x < 16,
        ensures
            final(self)@ == state_effect(old(self)@, Instruction::Rnd(x as u8, kk), random),
            op == pc_effect(old(self)@, Instruction::Rnd(x as u8, kk)),
    {
        self.v[x] = random & kk;
        PcOpertion::NEXT
    }

    fn drw(&mut self, vx: usize, vy: usize, n: u8) -> (op: PcOpertion)
        requires
            instruction_ok(old(self)@, Instruction::Drw(vx as u8, vy as u8, n)),
            vx < 16,
            vy < 16,
        ensures
            final(self)@ == state_effect(old(self)@, Instruction::Drw(vx as u8, vy as u8, n), 0),
            op == pc_effect(old(self)@, Instruction::Drw(vx as u8, vy as u8, n)),
    {
        let ghost s0 = self@;
        self.v[0xF] = 0;

        let start_x = (self.v[vx] as usize) % DISPLAY_HEIGHT;
        let start_y = (self.v[vy] as usize) % DISPLAY_WIDTH;
        let ghost sx = start_x as int;
        let ghost sy = start_y as int;
        assert(sx == origin_x(s0, vx as u8));
        assert(sy == origin_y(s0, vy as u8));

        let mut row: usize = 0;
        while row < n as usize && start_y + row < DISPLAY_WIDTH
            invariant
                sx == start_x,
                sy == start_y,
                start_x < 64,
                start_y < 32,
                row <= n,
                start_y + row <= 32,
                s0.well_shaped(),
                visible_rows(sy, n) == 0 || s0.i + visible_rows(sy, n) <= 4096,
                self@ == (CpuState {
                    display: self@.display,
                    v: s0.v.update(15, flag(collides_before(s0, sx, sy, n, row as int, 0))),
                    ..s0
                }),
                partly_drawn(self.display@, s0, sx, sy, n, row as int, 0),
            decreases n - row,
        {
            let sprite_byte = self.memory[self.i as usize + row];

            let mut col: usize = 0;
            while col < 8 && start_x + col < DISPLAY_HEIGHT
                invariant
                    sx == start_x,
                    sy == start_y,
                    start_x < 64,
                    start_y < 32,
                    row < n,
                    start_y + row < 32,
                    col <= 8,
                    s0.well_shaped(),
                    s0.i + row < 4096,
                    sprite_byte == s0.memory[s0.i + row],
                    self@ == (CpuState {
                        display: self@.display,
                        v: s0.v.update(15, flag(collides_before(s0, sx, sy, n, row as int, col as int))),
                        ..s0
                    }),
                    partly_drawn(self.display@, s0, sx, sy, n, row as int, col as int),
                decreases 8 - col,
            {
                let pixel_x = start_x + col;
                let pixel_y = start_y + row;

                let byte_idx = pixel_y * 8 + (pixel_x / 8);
                let bit_idx = (7 - (pixel_x % 8)) as u8;

                let sprite_bit = (sprite_byte >> ((7 - col) as u8)) & 1;
                let screen_bit = (self.display[byte_idx] >> bit_idx) & 1;
                let ghost d = self.display@;
                proof {
                    lemma_pixel_position(pixel_x as int, pixel_y as int, pixel_x as int, pixel_y as int);
                    lemma_extract_bit(sprite_byte, (7 - col) as u8);
                    lemma_extract_bit(d[byte_idx as int], bit_idx);
                    lemma_xor_of_bits(screen_bit, sprite_bit);
                }

                if screen_bit == 1 && sprite_bit == 1 {
                    self.v[0xF] = 1;
                }

                let new_bit = screen_bit ^ sprite_bit;
                if new_bit == 1 {
                    self.display[byte_idx] = self.display[byte_idx] | (1u8 << bit_idx);
                    proof {
                        assert forall|j: u8| j < 8 implies #[trigger] byte_bit(self.display@[byte_idx as int], j)
                            == (j == bit_idx || byte_bit(d[byte_idx as int], j)) by {
                            lemma_set_bit(d[byte_idx as int], bit_idx, j);
                        }
                    }
                } else {
                    self.display[byte_idx] = self.display[byte_idx] & !(1u8 << bit_idx);
                    proof {
                        assert forall|j: u8| j < 8 implies #[trigger] byte_bit(self.display@[byte_idx as int], j)
                            == (j != bit_idx && byte_bit(d[byte_idx as int], j)) by {
                            lemma_clear_bit(d[byte_idx as int], bit_idx, j);
                        }
                    }
                }
                proof {
                    lemma_draw_pixel_step(d, self.display@, s0, sx, sy, n, row as int, col as int);
                }
                col += 1;
            }
            proof {
                lemma_draw_row_done(self.display@, s0, sx, sy, n, row as int, col as int);
            }
            row += 1;
        }
        proof {
            lemma_draw_done(self.display@, s0, sx, sy, n, row as int);
        }
        PcOpertion::NEXT
    }

    fn skp(&mut self, x: usize) -> (op: PcOpertion)
        requires
            instruction_ok(old(self)@, Instruction::Skp(x as u8)),
            x < 16,
        ensures
            final(self)@ == state_effect(old(self)@, Instruction::Skp(x as u8), 0),
            op == pc_effect(old(self)@, Instruction::Skp(x as u8)),
    {
        proof {
            lemma_word_mask_bit(self.keys, self.v[x as int] as u16);
        }
        if (self.keys & (1u16 << (self.v[x] as u16))) != 0 {
            return PcOpertion::SKIP;
        }
        PcOpertion::NEXT
    }

    fn sknp(&mut self, x: usize) -> (op: PcOpertion)
        requires
            instruction_ok(old(self)@, Instruction::Sknp(x as u8)),
            x < 16,
        ensures
            final(self)@ == state_effect(old(self)@, Instruction::Sknp(x as u8), 0),
            op == pc_effect(old(self)@, Instruction::Sknp(x as u8)),
    {
        proof {
            lemma_word_mask_bit(self.keys, self.v[x as int] as u16);
        }
        if (self.keys & (1u16 << (self.v[x] as u16))) == 0 {
            return PcOpertion::SKIP;
        }
        PcOpertion::NEXT
    }
}

} // verus!
