use chip8::cpu::{decode_opcode, display_rows, Chip8CPU, Chip8Error, DISPLAY_BYTES, FONT_BYTES, MAX_MEMORY, PROGRAM_START};
use chip8::machine::Instruction;

const FONT: [u8; 80] = [
    0xF0, 0x90, 0x90, 0x90, 0xF0, 0x20, 0x60, 0x20, 0x20, 0x70, 0xF0, 0x10, 0xF0, 0x80, 0xF0, 0xF0,
    0x10, 0xF0, 0x10, 0xF0, 0x90, 0x90, 0xF0, 0x10, 0x10, 0xF0, 0x80, 0xF0, 0x10, 0xF0, 0xF0, 0x80,
    0xF0, 0x90, 0xF0, 0xF0, 0x10, 0x20, 0x40, 0x40, 0xF0, 0x90, 0xF0, 0x90, 0xF0, 0xF0, 0x90, 0xF0,
    0x10, 0xF0, 0xF0, 0x90, 0xF0, 0x90, 0x90, 0xE0, 0x90, 0xE0, 0x90, 0xE0, 0xF0, 0x80, 0x80, 0x80,
    0xF0, 0xE0, 0x90, 0x90, 0x90, 0xE0, 0xF0, 0x80, 0xF0, 0x80, 0xF0, 0xF0, 0x80, 0xF0, 0x80, 0x80,
];

/// Clears the screen, stores V0..VF at 0x300, and draws them: V0..VE as the
/// first byte of rows 0..14, VF as the third byte of row 0.
const OBSERVE: [u8; 16] = [
    0x00, 0xE0, 0xA3, 0x00, 0xFF, 0x55, 0x60, 0x00, 0xD0, 0x0F, 0xA3, 0x0F, 0x61, 0x10, 0xD1, 0x01,
];

fn machine(program: &[u8]) -> Chip8CPU {
    let mut cpu = Chip8CPU::new(&FONT).unwrap();
    cpu.load_rom(program).unwrap();
    cpu
}

fn run(cpu: &mut Chip8CPU, steps: usize) {
    for _ in 0..steps {
        assert!(cpu.can_tick());
        cpu.tick();
    }
}

fn registers_of(cpu: &Chip8CPU) -> [u8; 16] {
    let d = cpu.get_display();
    let mut regs = [0u8; 16];
    for k in 0..15 {
        regs[k] = d[8 * k];
    }
    regs[15] = d[2];
    regs
}

/// Runs `steps` instructions of `body`, then the observer; returns V0..VF.
fn registers_after(body: &[u8], steps: usize) -> [u8; 16] {
    let mut program = body.to_vec();
    program.extend_from_slice(&OBSERVE);
    let mut cpu = machine(&program);
    run(&mut cpu, steps);
    run(&mut cpu, 8);
    registers_of(&cpu)
}

fn pixel(cpu: &Chip8CPU, x: usize, y: usize) -> bool {
    (cpu.get_display()[y * 8 + x / 8] >> (7 - x % 8)) & 1 == 1
}

#[test]
fn new_loads_font_and_clears_display() {
    let cpu = Chip8CPU::new(&FONT).unwrap();
    assert!(cpu.get_display().iter().all(|&b| b == 0));
    assert_eq!(cpu.get_display().len(), DISPLAY_BYTES);
    assert_eq!(cpu.sound_timer(), 0);
    assert_eq!(cpu.keys, 0);
    // The program counter starts at 0x200, where memory is zero: opcode 0 is a no-op.
    assert!(cpu.can_tick());
}

#[test]
fn new_refuses_long_font() {
    let long = [0u8; 81];
    assert_eq!(Chip8CPU::new(&long).err(), Some(Chip8Error::FontsCorrupted(81)));
    assert_eq!(FONT_BYTES, 80);
}

#[test]
fn reset_clears_everything() {
    // Draw the font digit 0 at (0, 0), then reset.
    let mut cpu = machine(&[0xD0, 0x05]);
    run(&mut cpu, 1);
    assert!(pixel(&cpu, 0, 0));
    cpu.keys = 0xFFFF;
    assert_eq!(cpu.reset(&FONT), Ok(()));
    assert!(cpu.get_display().iter().all(|&b| b == 0));
    assert_eq!(cpu.keys, 0);
    // The program was cleared too: the machine runs opcode 0 at 0x200.
    run(&mut cpu, 1);
    assert!(cpu.get_display().iter().all(|&b| b == 0));
}

#[test]
fn reset_refuses_long_font() {
    let mut cpu = machine(&[0xD0, 0x05]);
    run(&mut cpu, 1);
    assert_eq!(cpu.reset(&[0u8; 100]), Err(Chip8Error::FontsCorrupted(100)));
    assert!(cpu.get_display().iter().all(|&b| b == 0));
}

#[test]
fn load_rom_limits() {
    let mut cpu = Chip8CPU::new(&FONT).unwrap();
    let limit = MAX_MEMORY - PROGRAM_START;
    assert_eq!(limit, 3584);
    assert_eq!(cpu.load_rom(&vec![0u8; limit + 1]), Err(Chip8Error::RomTooBig(3585)));
    assert_eq!(cpu.load_rom(&vec![0u8; limit]), Ok(()));
}

#[test]
fn load_rom_reads_back_through_execution() {
    // 6A2B: VA = 0x2B.
    let regs = registers_after(&[0x6A, 0x2B], 1);
    assert_eq!(regs[0xA], 0x2B);
}

#[test]
fn decode_known_and_unknown_opcodes() {
    assert_eq!(decode_opcode(0x00E0), Some(Instruction::Cls));
    assert_eq!(decode_opcode(0x00EE), Some(Instruction::Ret));
    assert_eq!(decode_opcode(0x0123), Some(Instruction::Sys(0x123)));
    assert_eq!(decode_opcode(0xD123), Some(Instruction::Drw(1, 2, 3)));
    assert_eq!(decode_opcode(0x8AB4), Some(Instruction::AddY(0xA, 0xB)));
    assert_eq!(decode_opcode(0xF007), Some(Instruction::LdDt(0)));
    assert_eq!(decode_opcode(0xF015), Some(Instruction::SetDt(0)));
    assert_eq!(decode_opcode(0xF018), Some(Instruction::SetSt(0)));
    assert_eq!(decode_opcode(0xC3FF), Some(Instruction::Rnd(3, 0xFF)));
    assert_eq!(decode_opcode(0x5121), None);
    assert_eq!(decode_opcode(0x8008), None);
    assert_eq!(decode_opcode(0xE0FF), None);
    assert_eq!(decode_opcode(0xF0FF), None);
}

#[test]
fn unknown_opcode_cannot_tick() {
    let cpu = machine(&[0x51, 0x21]);
    assert!(!cpu.can_tick());
    let cpu = machine(&[0xFF, 0xFF]);
    assert!(!cpu.can_tick());
}

#[test]
fn return_with_empty_stack_cannot_tick() {
    let cpu = machine(&[0x00, 0xEE]);
    assert!(!cpu.can_tick());
}

#[test]
fn call_beyond_stack_cannot_tick() {
    // 2200 calls itself: sixteen calls fill the stack, the seventeenth cannot run.
    let mut cpu = machine(&[0x22, 0x00]);
    run(&mut cpu, 16);
    assert!(!cpu.can_tick());
}

#[test]
fn memory_bounds_cannot_tick() {
    // I = 0xFFE: BCD would write past the end of memory.
    let mut cpu = machine(&[0xAF, 0xFE, 0xF0, 0x33]);
    run(&mut cpu, 1);
    assert!(!cpu.can_tick());
    // I = 0xFFD: BCD fits.
    let mut cpu = machine(&[0xAF, 0xFD, 0xF0, 0x33]);
    run(&mut cpu, 2);
    // I = 0xFFF: storing V0..V1 would write past the end; storing V0 fits.
    let mut cpu = machine(&[0xAF, 0xFF, 0xF1, 0x55]);
    run(&mut cpu, 1);
    assert!(!cpu.can_tick());
    let mut cpu = machine(&[0xAF, 0xFF, 0xF0, 0x55]);
    run(&mut cpu, 2);
    // I = 0xFFF: a sprite of two rows reads past the end; a sprite of one row does not.
    let mut cpu = machine(&[0xAF, 0xFF, 0xD0, 0x02]);
    run(&mut cpu, 1);
    assert!(!cpu.can_tick());
    let mut cpu = machine(&[0xAF, 0xFF, 0xD0, 0x01]);
    run(&mut cpu, 2);
    // A sprite at row 31 shows one row only, so only one byte is read.
    let mut cpu = machine(&[0xAF, 0xFF, 0x61, 0x1F, 0xD0, 0x15]);
    run(&mut cpu, 3);
}

#[test]
fn key_skip_with_large_register_cannot_tick() {
    let cpu = {
        let mut cpu = machine(&[0x60, 0x10, 0xE0, 0x9E]);
        run(&mut cpu, 1);
        cpu
    };
    assert!(!cpu.can_tick());
}

#[test]
fn program_counter_past_memory_fetches_nop() {
    // Jump to 0xFFF: from there on every fetch is opcode 0, a no-op.
    let mut cpu = machine(&[0x1F, 0xFF]);
    run(&mut cpu, 1);
    run(&mut cpu, 100);
    assert!(cpu.get_display().iter().all(|&b| b == 0));
}

#[test]
fn load_and_add_immediate() {
    // V1 = 0xF0; V1 += 0x20 wraps to 0x10 and leaves VF alone.
    let regs = registers_after(&[0x61, 0xF0, 0x71, 0x20], 2);
    assert_eq!(regs[1], 0x10);
    assert_eq!(regs[15], 0);
}

#[test]
fn add_registers_sets_carry() {
    // V0 = 200, V1 = 100, V0 += V1: 44 with carry.
    let regs = registers_after(&[0x60, 200, 0x61, 100, 0x80, 0x14], 3);
    assert_eq!(regs[0], 44);
    assert_eq!(regs[15], 1);
    // V0 = 100, V1 = 100: 200 without carry.
    let regs = registers_after(&[0x60, 100, 0x61, 100, 0x80, 0x14], 3);
    assert_eq!(regs[0], 200);
    assert_eq!(regs[15], 0);
}

#[test]
fn add_into_flag_register_keeps_sum() {
    // VF = 200, V1 = 100, VF += V1: the sum overwrites the carry.
    let regs = registers_after(&[0x6F, 200, 0x61, 100, 0x8F, 0x14], 3);
    assert_eq!(regs[15], 44);
}

#[test]
fn subtract_registers() {
    // V0 = 10, V1 = 3: V0 -= V1 gives 7, VF = 1.
    let regs = registers_after(&[0x60, 10, 0x61, 3, 0x80, 0x15], 3);
    assert_eq!(regs[0], 7);
    assert_eq!(regs[15], 1);
    // V0 = 3, V1 = 10: wraps to 249, VF = 0.
    let regs = registers_after(&[0x60, 3, 0x61, 10, 0x80, 0x15], 3);
    assert_eq!(regs[0], 249);
    assert_eq!(regs[15], 0);
    // Equal values: 0 and VF = 0 (the flag is "greater than").
    let regs = registers_after(&[0x60, 5, 0x61, 5, 0x80, 0x15], 3);
    assert_eq!(regs[0], 0);
    assert_eq!(regs[15], 0);
}

#[test]
fn subtract_reversed() {
    // V0 = 3, V1 = 10: V0 = V1 - V0 = 7, VF = 1.
    let regs = registers_after(&[0x60, 3, 0x61, 10, 0x80, 0x17], 3);
    assert_eq!(regs[0], 7);
    assert_eq!(regs[15], 1);
    let regs = registers_after(&[0x60, 10, 0x61, 3, 0x80, 0x17], 3);
    assert_eq!(regs[0], 249);
    assert_eq!(regs[15], 0);
}

#[test]
fn bitwise_operations() {
    let regs = registers_after(
        &[0x60, 0b1100, 0x61, 0b1010, 0x62, 0b1100, 0x63, 0b1100, 0x80, 0x11, 0x82, 0x12, 0x83, 0x13],
        7,
    );
    assert_eq!(regs[0], 0b1110);
    assert_eq!(regs[2], 0b1000);
    assert_eq!(regs[3], 0b0110);
    // 8xy0 copies.
    let regs = registers_after(&[0x61, 0x5A, 0x84, 0x10], 2);
    assert_eq!(regs[4], 0x5A);
}

#[test]
fn shifts_set_flag_from_lost_bit() {
    // V0 = 0b1000_0011: shift right gives 0b0100_0001 with VF = 1.
    let regs = registers_after(&[0x60, 0x83, 0x80, 0x06], 2);
    assert_eq!(regs[0], 0x41);
    assert_eq!(regs[15], 1);
    // Shift left gives 0b0000_0110 with VF = 1.
    let regs = registers_after(&[0x60, 0x83, 0x80, 0x0E], 2);
    assert_eq!(regs[0], 0x06);
    assert_eq!(regs[15], 1);
    // V0 = 0x42: right 0x21 VF 0; left 0x84 VF 0.
    let regs = registers_after(&[0x60, 0x42, 0x80, 0x06], 2);
    assert_eq!(regs[0], 0x21);
    assert_eq!(regs[15], 0);
    let regs = registers_after(&[0x60, 0x42, 0x80, 0x0E], 2);
    assert_eq!(regs[0], 0x84);
    assert_eq!(regs[15], 0);
}

#[test]
fn shift_of_flag_register() {
    // VF = 3: shifting VF right writes the lost bit, then shifts it away.
    let regs = registers_after(&[0x6F, 0x03, 0x8F, 0x06], 2);
    assert_eq!(regs[15], 0);
}

#[test]
fn skips_on_equal_and_not_equal() {
    // V0 = 5; 3005 skips the next instruction (V1 = 1); V2 = 2 runs.
    let regs = registers_after(&[0x60, 5, 0x30, 5, 0x61, 1, 0x62, 2], 3);
    assert_eq!(regs[1], 0);
    assert_eq!(regs[2], 2);
    // 3006 does not skip.
    let regs = registers_after(&[0x60, 5, 0x30, 6, 0x61, 1, 0x62, 2], 4);
    assert_eq!(regs[1], 1);
    // 4006 skips, 4005 does not.
    let regs = registers_after(&[0x60, 5, 0x40, 6, 0x61, 1, 0x62, 2], 3);
    assert_eq!(regs[1], 0);
    let regs = registers_after(&[0x60, 5, 0x40, 5, 0x61, 1, 0x62, 2], 4);
    assert_eq!(regs[1], 1);
    // 5010 skips when V0 == V1, 9010 when they differ.
    let regs = registers_after(&[0x60, 5, 0x61, 5, 0x50, 0x10, 0x62, 1, 0x63, 3], 4);
    assert_eq!(regs[2], 0);
    assert_eq!(regs[3], 3);
    let regs = registers_after(&[0x60, 5, 0x61, 5, 0x90, 0x10, 0x62, 1, 0x63, 3], 5);
    assert_eq!(regs[2], 1);
}

#[test]
fn jumps() {
    // 1206 jumps over V1 = 1 to V2 = 2 at 0x206.
    let regs = registers_after(&[0x12, 0x06, 0x61, 0x01, 0x12, 0x08, 0x62, 0x02], 2);
    assert_eq!(regs[1], 0);
    assert_eq!(regs[2], 2);
    // V0 = 4; B204 jumps to 0x208.
    let regs = registers_after(&[0x60, 0x04, 0xB2, 0x04, 0x61, 0x01, 0x12, 0x0A, 0x62, 0x02], 3);
    assert_eq!(regs[1], 0);
    assert_eq!(regs[2], 2);
}

#[test]
fn call_and_return() {
    // 0x200: call 0x206; 0x202: V2 = 2; 0x204: jump 0x20A; 0x206: V1 = 1; 0x208: return.
    let regs = registers_after(
        &[0x22, 0x06, 0x62, 0x02, 0x12, 0x0A, 0x61, 0x01, 0x00, 0xEE],
        5,
    );
    assert_eq!(regs[1], 1);
    assert_eq!(regs[2], 2);
}

#[test]
fn bcd_of_register() {
    // V0 = 234, I = 0x300: memory holds 2, 3, 4; load them into V0..V2.
    let regs = registers_after(&[0x60, 234, 0xA3, 0x00, 0xF0, 0x33, 0xF2, 0x65], 4);
    assert_eq!(&regs[0..3], &[2, 3, 4]);
}

#[test]
fn store_then_load_registers() {
    // V0..V2 = 7, 8, 9; store at 0x300, clear them, load them back.
    let regs = registers_after(
        &[
            0x60, 7, 0x61, 8, 0x62, 9, 0xA3, 0x00, 0xF2, 0x55, 0x60, 0, 0x61, 0, 0x62, 0, 0xF2, 0x65,
        ],
        9,
    );
    assert_eq!(&regs[0..3], &[7, 8, 9]);
}

#[test]
fn load_registers_stops_at_x() {
    // Memory at 0x300 holds 1, 2 (from registers); V2 = 5 is not touched by F165.
    let regs = registers_after(
        &[0x60, 1, 0x61, 2, 0xA3, 0x00, 0xF1, 0x55, 0x62, 5, 0x60, 0, 0xF1, 0x65],
        7,
    );
    assert_eq!(&regs[0..3], &[1, 2, 5]);
}

#[test]
fn font_address_and_add_to_index() {
    // V0 = 3; F029 sets I = 15, the font sprite for digit 3; draw it at (8, 0).
    let mut cpu = machine(&[0x60, 0x03, 0xF0, 0x29, 0x61, 0x08, 0x62, 0x00, 0xD1, 0x25]);
    run(&mut cpu, 5);
    let d = cpu.get_display();
    for row in 0..5 {
        assert_eq!(d[row * 8 + 1], FONT[15 + row]);
    }
    // I = 0xEFF, V0 = 2: I + V0 = 0xF01 > 0xF00 sets VF.
    let regs = registers_after(&[0xAE, 0xFF, 0x60, 0x02, 0xF0, 0x1E], 3);
    assert_eq!(regs[15], 1);
    let regs = registers_after(&[0xAE, 0xFF, 0x60, 0x01, 0xF0, 0x1E], 3);
    assert_eq!(regs[15], 0);
}

#[test]
fn random_is_masked() {
    // C000: V0 = random & 0 = 0. C30F: V3 <= 15.
    for _ in 0..20 {
        let regs = registers_after(&[0x60, 0xFF, 0xC0, 0x00, 0xC3, 0x0F], 3);
        assert_eq!(regs[0], 0);
        assert!(regs[3] <= 0x0F);
    }
}

#[test]
fn timers_set_from_registers_and_read_back() {
    // V3 = 9, V4 = 7: F315 sets the delay timer to 9, F418 the sound timer
    // to 7; Fx07 reads the delay timer back into V0; V3 and V4 are unchanged.
    let regs = registers_after(&[0x63, 9, 0x64, 7, 0xF3, 0x15, 0xF4, 0x18, 0xF0, 0x07], 5);
    assert_eq!(regs[0], 9);
    assert_eq!(regs[3], 9);
    assert_eq!(regs[4], 7);
    let mut cpu = machine(&[0x64, 7, 0xF4, 0x18]);
    run(&mut cpu, 2);
    assert_eq!(cpu.sound_timer(), 7);
}

#[test]
fn timers_count_down_to_zero_only() {
    // Sound timer 2 counts down to 1, then 0, then stays at 0.
    let mut cpu = machine(&[0x60, 2, 0xF0, 0x18, 0xF0, 0x15]);
    run(&mut cpu, 3);
    assert_eq!(cpu.sound_timer(), 2);
    cpu.decrease_sound_timer();
    assert_eq!(cpu.sound_timer(), 1);
    cpu.decrease_sound_timer();
    cpu.decrease_sound_timer();
    assert_eq!(cpu.sound_timer(), 0);
    // The delay timer, set to 2, reads 1 after one count down.
    cpu.decrease_delay_timer();
    assert_eq!(cpu.execute(0xF107), Ok(()));
    assert_eq!(cpu.execute(0xA300), Ok(()));
    assert_eq!(cpu.execute(0xF155), Ok(()));
    assert_eq!(cpu.execute(0x6000), Ok(()));
    assert_eq!(cpu.execute(0xA301), Ok(()));
    assert_eq!(cpu.execute(0x00E0), Ok(()));
    assert_eq!(cpu.execute(0xD001), Ok(()));
    assert_eq!(cpu.get_display()[0], 1);
}

#[test]
fn draw_sets_pixels_and_collision() {
    // Draw digit 0 at (0, 0): top row 0xF0.
    let mut cpu = machine(&[0xD0, 0x05, 0xD0, 0x05]);
    run(&mut cpu, 1);
    assert_eq!(cpu.get_display()[0], 0xF0);
    assert_eq!(cpu.get_display()[8], 0x90);
    // Drawing it again erases it.
    run(&mut cpu, 1);
    assert!(cpu.get_display().iter().all(|&b| b == 0));
}

#[test]
fn draw_twice_sets_collision_flag() {
    let regs_once = {
        let mut program = vec![0x60, 0x10, 0xD0, 0x05];
        program.extend_from_slice(&[0x8E, 0xF0]); // VE = VF
        registers_after(&program, 3)
    };
    assert_eq!(regs_once[0xE], 0);
    let regs_twice = {
        let program = vec![0x60, 0x10, 0xD0, 0x05, 0xD0, 0x05, 0x8E, 0xF0];
        registers_after(&program, 4)
    };
    assert_eq!(regs_twice[0xE], 1);
}

#[test]
fn draw_straddles_bytes_and_clips() {
    // V0 = 4: digit 0 at (4, 4) straddles bytes 0 and 1 of rows 4..8.
    let mut cpu = machine(&[0x60, 0x04, 0xD0, 0x05]);
    run(&mut cpu, 2);
    let d = cpu.get_display();
    assert_eq!(d[4 * 8], 0x0F);
    assert_eq!(d[4 * 8 + 1], 0x00);
    assert_eq!(d[5 * 8], 0x09);
    // V0 = 60, V1 = 30: at (60, 30) only 4 columns and 2 rows are visible.
    let mut cpu = machine(&[0x60, 60, 0x61, 30, 0xD0, 0x15]);
    run(&mut cpu, 3);
    let d = cpu.get_display();
    assert_eq!(d[30 * 8 + 7], 0x0F);
    assert_eq!(d[31 * 8 + 7], 0x09);
    let lit = d.iter().map(|b| b.count_ones()).sum::<u32>();
    assert_eq!(lit, 4 + 2);
    // Coordinates wrap: V0 = 64 + 8 draws at column 8.
    let mut cpu = machine(&[0x60, 72, 0x61, 0, 0xD0, 0x11]);
    run(&mut cpu, 3);
    assert_eq!(cpu.get_display()[1], 0xF0);
}

#[test]
fn draw_with_flag_register_coordinate_uses_zero() {
    // VF = 9: the flag is cleared before the coordinates are read, so the
    // sprite lands at (0, 0).
    let mut cpu = machine(&[0x6F, 0x09, 0xDF, 0xF1]);
    run(&mut cpu, 2);
    assert_eq!(cpu.get_display()[0], 0xF0);
}

#[test]
fn clear_screen() {
    let mut cpu = machine(&[0xD0, 0x05, 0x00, 0xE0]);
    run(&mut cpu, 1);
    assert!(cpu.get_display().iter().any(|&b| b != 0));
    run(&mut cpu, 1);
    assert!(cpu.get_display().iter().all(|&b| b == 0));
}

#[test]
fn key_skips() {
    // V0 = 5 with key 5 down: E09E skips V1 = 1, E0A1 does not skip V2 = 2.
    let mut program = vec![0x60, 5, 0xE0, 0x9E, 0x61, 1, 0xE0, 0xA1, 0x62, 2];
    program.extend_from_slice(&OBSERVE);
    let mut cpu = machine(&program);
    cpu.set_keys(1 << 5);
    run(&mut cpu, 4 + 8);
    let regs = registers_of(&cpu);
    assert_eq!(regs[1], 0);
    assert_eq!(regs[2], 2);
    // With no key down the roles swap.
    let mut cpu = machine(&program);
    run(&mut cpu, 4 + 8);
    let regs = registers_of(&cpu);
    assert_eq!(regs[1], 1);
    assert_eq!(regs[2], 0);
}

#[test]
fn wait_for_key() {
    // F30A waits while no key is down, then stores the lowest key that is.
    let mut program = vec![0xF3, 0x0A];
    program.extend_from_slice(&OBSERVE);
    let mut cpu = machine(&program);
    run(&mut cpu, 10);
    assert!(cpu.get_display().iter().all(|&b| b == 0));
    cpu.set_keys((1 << 9) | (1 << 12));
    run(&mut cpu, 1 + 8);
    let regs = registers_of(&cpu);
    assert_eq!(regs[3], 9);
}

#[test]
fn execute_refuses_unknown_opcode() {
    let mut cpu = Chip8CPU::new(&FONT).unwrap();
    assert!(!cpu.can_execute(0x5121));
    assert_eq!(cpu.execute(0x5121), Err(Chip8Error::UnknownOpcode(0x5121)));
    assert_eq!(cpu.execute(0xE0FF), Err(Chip8Error::UnknownOpcode(0xE0FF)));
    // The machine is unchanged: it still runs the no-op at 0x200.
    assert!(cpu.can_tick());
}

#[test]
fn execute_known_opcode() {
    let mut cpu = Chip8CPU::new(&FONT).unwrap();
    assert!(cpu.can_execute(0xD005));
    assert_eq!(cpu.execute(0xD005), Ok(()));
    assert_eq!(cpu.get_display()[0], 0xF0);
    // A return with an empty stack is known but not executable.
    assert!(!cpu.can_execute(0x00EE));
}

#[test]
fn set_keys_feeds_wait_for_key() {
    // Keys 4 and 5 down: F50A stores the lowest, 4.
    let mut program = vec![0xF5, 0x0A];
    program.extend_from_slice(&OBSERVE);
    let mut cpu = machine(&program);
    cpu.set_keys(0x0030);
    assert_eq!(cpu.keys, 0x0030);
    run(&mut cpu, 1 + 8);
    let regs = registers_of(&cpu);
    assert_eq!(regs[5], 4);
}

#[test]
fn execute_with_given_random_byte() {
    // C3F0 with random byte 0x5A: V3 = 0x5A & 0xF0 = 0x50.
    let mut cpu = Chip8CPU::new(&FONT).unwrap();
    assert_eq!(cpu.execute_with_random(0xC3F0, 0x5A), Ok(()));
    assert_eq!(cpu.execute_with_random(0xA300, 0), Ok(()));
    assert_eq!(cpu.execute_with_random(0xF355, 0), Ok(()));
    assert_eq!(cpu.execute_with_random(0xD001, 0), Ok(()));
    // Draw memory 0x300 (V0 = 0) as one row at (0, 0): 0x00; V3 is at 0x303.
    assert_eq!(cpu.execute_with_random(0xA303, 0), Ok(()));
    assert_eq!(cpu.execute_with_random(0x6108, 0), Ok(()));
    assert_eq!(cpu.execute_with_random(0xD101, 0), Ok(()));
    assert_eq!(cpu.get_display()[1], 0x50);
}

#[test]
fn empty_sprite_past_memory_is_drawn() {
    // I = 0xFFF, V0 = 0xFF, I += V0 gives 0x10FE; D000 draws no row and reads nothing.
    let mut cpu = machine(&[0xAF, 0xFF, 0x60, 0xFF, 0xF0, 0x1E, 0xD0, 0x00]);
    run(&mut cpu, 3);
    assert!(cpu.can_tick());
    run(&mut cpu, 1);
    assert!(cpu.get_display().iter().all(|&b| b == 0));
    // A sprite of one row there cannot be read.
    let mut cpu = machine(&[0xAF, 0xFF, 0x60, 0xFF, 0xF0, 0x1E, 0xD0, 0x01]);
    run(&mut cpu, 3);
    assert!(!cpu.can_tick());
}

#[test]
fn display_rows_follow_pixels() {
    // Digit 0 at (60, 30): columns 60..63 of rows 30 and 31.
    let mut cpu = machine(&[0x60, 60, 0x61, 30, 0xD0, 0x15]);
    run(&mut cpu, 3);
    let rows = display_rows(cpu.get_display());
    assert_eq!(rows.len(), 32);
    assert!(rows.iter().all(|r| r.len() == 64));
    for y in 0..32 {
        for x in 0..64 {
            let expected = (y == 30 && x >= 60) || (y == 31 && (x == 60 || x == 63));
            assert_eq!(rows[y][x], expected, "pixel ({}, {})", x, y);
            assert_eq!(rows[y][x], pixel(&cpu, x, y));
        }
    }
}
