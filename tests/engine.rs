use chip8::chip::{Chip, StepOutcome};
use chip8::opcodes::{MemAddr, Opcode, RegIdx};
use chip8::stack::ChipError;

fn r(v: usize) -> RegIdx {
    RegIdx::new(v)
}

fn chip_with(program: &[u8]) -> Chip {
    let mut chip = Chip::init();
    chip.load(program);
    chip
}

fn lit_count(chip: &Chip) -> usize {
    let mut n = 0;
    for y in 0..32 {
        for x in 0..64 {
            if chip.pixel(x, y) {
                n += 1;
            }
        }
    }
    n
}

#[test]
fn clear_screen_scenario() {
    // V0 = 0; I = 0x208; draw one row; clear; sprite byte at 0x208.
    let mut chip = chip_with(&[0x60, 0x00, 0xA2, 0x08, 0xD0, 0x01, 0x00, 0xE0, 0xFF]);
    for _ in 0..3 {
        chip.step(0).unwrap();
    }
    assert_eq!(lit_count(&chip), 8);
    assert_eq!(chip.step(0), Ok(StepOutcome::Executed(Opcode::CLS)));
    assert_eq!(lit_count(&chip), 0);
    assert_eq!(chip.pc().value(), 0x208);
}

#[test]
fn jump_scenario() {
    let mut chip = chip_with(&[0x12, 0x28]);
    assert_eq!(chip.step(0), Ok(StepOutcome::Executed(Opcode::JP(MemAddr::new(0x228)))));
    assert_eq!(chip.pc().value(), 0x228);
}

#[test]
fn load_immediate_scenario() {
    let mut chip = chip_with(&[0x6A, 0x05]);
    assert_eq!(chip.step(0), Ok(StepOutcome::Executed(Opcode::ILD(r(10), 5))));
    assert_eq!(chip.register(r(10)), 5);
    assert_eq!(chip.pc().value(), 0x202);
}

#[test]
fn add_with_carry_scenario() {
    let mut chip = Chip::init();
    chip.consume_opcode(Opcode::ILD(r(0), 0xFF), 0).unwrap();
    chip.consume_opcode(Opcode::ILD(r(1), 0x01), 0).unwrap();
    let mut chip2 = chip_with(&[0x60, 0xFF, 0x61, 0x01, 0x80, 0x14]);
    chip2.step(0).unwrap();
    chip2.step(0).unwrap();
    assert_eq!(chip2.step(0), Ok(StepOutcome::Executed(Opcode::RADD(r(0), r(1)))));
    assert_eq!(chip2.register(r(0)), 0x00);
    assert_eq!(chip2.register(r(15)), 1);
    chip.consume_opcode(Opcode::RADD(r(0), r(1)), 0).unwrap();
    assert_eq!(chip.register(r(0)), 0x00);
    assert_eq!(chip.register(r(15)), 1);
}

#[test]
fn add_without_carry_clears_flag() {
    let mut chip = Chip::init();
    chip.consume_opcode(Opcode::ILD(r(15), 1), 0).unwrap();
    chip.consume_opcode(Opcode::ILD(r(2), 200), 0).unwrap();
    chip.consume_opcode(Opcode::ILD(r(3), 55), 0).unwrap();
    chip.consume_opcode(Opcode::RADD(r(2), r(3)), 0).unwrap();
    assert_eq!(chip.register(r(2)), 255);
    assert_eq!(chip.register(r(15)), 0);
}

#[test]
fn subtract_flags_not_borrow() {
    let mut chip = Chip::init();
    chip.consume_opcode(Opcode::ILD(r(1), 5), 0).unwrap();
    chip.consume_opcode(Opcode::ILD(r(2), 7), 0).unwrap();
    chip.consume_opcode(Opcode::RSUB(r(1), r(2)), 0).unwrap();
    assert_eq!(chip.register(r(1)), 254);
    assert_eq!(chip.register(r(15)), 0);
    chip.consume_opcode(Opcode::ILD(r(1), 9), 0).unwrap();
    chip.consume_opcode(Opcode::RSUB(r(1), r(2)), 0).unwrap();
    assert_eq!(chip.register(r(1)), 2);
    assert_eq!(chip.register(r(15)), 1);
    chip.consume_opcode(Opcode::ILD(r(1), 9), 0).unwrap();
    chip.consume_opcode(Opcode::RSUBN(r(1), r(2)), 0).unwrap();
    assert_eq!(chip.register(r(1)), 254);
    assert_eq!(chip.register(r(15)), 0);
}

#[test]
fn shifts_move_the_lost_bit_into_flag() {
    let mut chip = Chip::init();
    chip.consume_opcode(Opcode::ILD(r(4), 0b1000_0011), 0).unwrap();
    chip.consume_opcode(Opcode::SHR(r(4)), 0).unwrap();
    assert_eq!(chip.register(r(4)), 0b0100_0001);
    assert_eq!(chip.register(r(15)), 1);
    chip.consume_opcode(Opcode::ILD(r(4), 0b1000_0011), 0).unwrap();
    chip.consume_opcode(Opcode::SHL(r(4)), 0).unwrap();
    assert_eq!(chip.register(r(4)), 0b0000_0110);
    assert_eq!(chip.register(r(15)), 1);
    chip.consume_opcode(Opcode::ILD(r(4), 0b0100_0010), 0).unwrap();
    chip.consume_opcode(Opcode::SHL(r(4)), 0).unwrap();
    assert_eq!(chip.register(r(15)), 0);
    chip.consume_opcode(Opcode::SHR(r(4)), 0).unwrap();
    assert_eq!(chip.register(r(15)), 0);
}

#[test]
fn call_overflow_scenario() {
    let mut chip = Chip::init();
    for k in 0..16 {
        chip.consume_opcode(Opcode::JP(MemAddr::new(0x300 + 2 * k)), 0).unwrap();
        assert_eq!(chip.consume_opcode(Opcode::CALL(MemAddr::new(0x300 + 2 * k)), 0), Ok(()));
    }
    assert_eq!(chip.stack_depth(), 16);
    let pc = chip.pc();
    assert_eq!(chip.consume_opcode(Opcode::CALL(MemAddr::new(0x500)), 0), Err(ChipError::StackOverflow));
    assert_eq!(chip.pc(), pc);
    for k in (0..16).rev() {
        chip.consume_opcode(Opcode::RET, 0).unwrap();
        assert_eq!(chip.pc().value(), 0x300 + 2 * k + 2);
    }
    assert_eq!(chip.consume_opcode(Opcode::RET, 0), Err(ChipError::StackUnderflow));
}

#[test]
fn call_and_return_resume_after_the_call() {
    // 0x200: CALL 0x206; 0x202: V1 = 1; 0x204: JP 0x204; 0x206: RET
    let mut chip = chip_with(&[0x22, 0x06, 0x61, 0x01, 0x12, 0x04, 0x00, 0xEE]);
    chip.step(0).unwrap();
    assert_eq!(chip.pc().value(), 0x206);
    assert_eq!(chip.stack_depth(), 1);
    chip.step(0).unwrap();
    assert_eq!(chip.pc().value(), 0x202);
    chip.step(0).unwrap();
    assert_eq!(chip.register(r(1)), 1);
}

#[test]
fn draw_twice_sets_flag_on_second() {
    // V0 = 10, V1 = 5, I = 0x20C, draw, draw; sprite 0xFF at 0x20C.
    let mut chip = chip_with(&[
        0x60, 0x0A, 0x61, 0x05, 0xA2, 0x0C, 0xD0, 0x11, 0xD0, 0x11, 0x00, 0x00, 0xFF,
    ]);
    for _ in 0..4 {
        chip.step(0).unwrap();
    }
    assert_eq!(chip.register(r(15)), 0);
    assert_eq!(lit_count(&chip), 8);
    assert!(chip.pixel(10, 5) && chip.pixel(17, 5));
    chip.step(0).unwrap();
    assert_eq!(chip.register(r(15)), 1);
    assert_eq!(lit_count(&chip), 0);
}

#[test]
fn skips_compare_registers_and_immediates() {
    let mut chip = Chip::init();
    chip.consume_opcode(Opcode::ILD(r(3), 7), 0).unwrap();
    let pc = chip.pc().value();
    chip.consume_opcode(Opcode::ISE(r(3), 7), 0).unwrap();
    assert_eq!(chip.pc().value(), pc + 4);
    chip.consume_opcode(Opcode::ISNE(r(3), 7), 0).unwrap();
    assert_eq!(chip.pc().value(), pc + 6);
    chip.consume_opcode(Opcode::RSE(r(3), r(4)), 0).unwrap();
    assert_eq!(chip.pc().value(), pc + 8);
    chip.consume_opcode(Opcode::RSNE(r(3), r(4)), 0).unwrap();
    assert_eq!(chip.pc().value(), pc + 12);
}

#[test]
fn key_skips_and_wait() {
    let mut chip = Chip::init();
    chip.consume_opcode(Opcode::ILD(r(2), 0x13), 0).unwrap();
    let pc = chip.pc().value();
    chip.consume_opcode(Opcode::SKP(r(2)), 0).unwrap();
    assert_eq!(chip.pc().value(), pc + 2);
    chip.set_key(r(3), true);
    chip.consume_opcode(Opcode::SKP(r(2)), 0).unwrap();
    assert_eq!(chip.pc().value(), pc + 6);
    chip.consume_opcode(Opcode::SKNP(r(2)), 0).unwrap();
    assert_eq!(chip.pc().value(), pc + 8);
    chip.set_key(r(3), false);
    chip.consume_opcode(Opcode::LDK(r(5)), 0).unwrap();
    assert_eq!(chip.pc().value(), pc + 8);
    chip.set_key(r(9), true);
    chip.set_key(r(12), true);
    chip.consume_opcode(Opcode::LDK(r(5)), 0).unwrap();
    assert_eq!(chip.register(r(5)), 9);
    assert_eq!(chip.pc().value(), pc + 10);
}

#[test]
fn random_byte_is_masked() {
    let mut chip = Chip::init();
    chip.consume_opcode(Opcode::RND(r(6), 0x0F), 0xAB).unwrap();
    assert_eq!(chip.register(r(6)), 0x0B);
    let mut chip2 = chip_with(&[0xC6, 0x0F]);
    let out = chip2.step_random();
    assert_eq!(out, Ok(StepOutcome::Executed(Opcode::RND(r(6), 0x0F))));
    assert!(chip2.register(r(6)) <= 0x0F);
}

#[test]
fn timers_load_and_tick_down_to_zero() {
    let mut chip = Chip::init();
    chip.consume_opcode(Opcode::ILD(r(1), 2), 0).unwrap();
    chip.consume_opcode(Opcode::SETDT(r(1)), 0).unwrap();
    chip.consume_opcode(Opcode::SETST(r(1)), 0).unwrap();
    assert_eq!(chip.delay_timer(), 2);
    assert_eq!(chip.sound_timer(), 2);
    chip.tick();
    chip.consume_opcode(Opcode::LDDT(r(7)), 0).unwrap();
    assert_eq!(chip.register(r(7)), 1);
    chip.tick();
    chip.tick();
    assert_eq!(chip.delay_timer(), 0);
    assert_eq!(chip.sound_timer(), 0);
}

#[test]
fn index_ops_bcd_dump_and_load() {
    let mut chip = Chip::init();
    chip.consume_opcode(Opcode::LDI(MemAddr::new(0x300)), 0).unwrap();
    chip.consume_opcode(Opcode::ILD(r(0), 254), 0).unwrap();
    chip.consume_opcode(Opcode::LDBCD(r(0)), 0).unwrap();
    assert_eq!(chip.read_memory(MemAddr::new(0x300)), 2);
    assert_eq!(chip.read_memory(MemAddr::new(0x301)), 5);
    assert_eq!(chip.read_memory(MemAddr::new(0x302)), 4);
    chip.consume_opcode(Opcode::ILD(r(1), 11), 0).unwrap();
    chip.consume_opcode(Opcode::ILD(r(2), 22), 0).unwrap();
    chip.consume_opcode(Opcode::ADDI(r(1)), 0).unwrap();
    assert_eq!(chip.index_register().value(), 0x30B);
    chip.consume_opcode(Opcode::DUMP(r(1)), 0).unwrap();
    assert_eq!(chip.read_memory(MemAddr::new(0x30B)), 254);
    assert_eq!(chip.read_memory(MemAddr::new(0x30C)), 11);
    assert_eq!(chip.read_memory(MemAddr::new(0x30D)), 0);
    chip.consume_opcode(Opcode::LDI(MemAddr::new(0x300)), 0).unwrap();
    chip.consume_opcode(Opcode::LOAD(r(2)), 0).unwrap();
    assert_eq!(chip.register(r(0)), 2);
    assert_eq!(chip.register(r(1)), 5);
    assert_eq!(chip.register(r(2)), 4);
    chip.consume_opcode(Opcode::ILD(r(3), 0x1A), 0).unwrap();
    chip.consume_opcode(Opcode::LDFI(r(3)), 0).unwrap();
    assert_eq!(chip.index_register().value(), 50);
}

#[test]
fn unrecognized_word_is_reported_and_skipped() {
    let mut chip = chip_with(&[0xFF, 0xFF]);
    assert_eq!(chip.step(0), Ok(StepOutcome::Unrecognized(0xFFFF)));
    assert_eq!(chip.pc().value(), 0x202);
}

#[test]
fn jump_relative_to_v0_wraps() {
    let mut chip = Chip::init();
    chip.consume_opcode(Opcode::ILD(r(0), 0x10), 0).unwrap();
    chip.consume_opcode(Opcode::JPV0(MemAddr::new(0xFF8)), 0).unwrap();
    assert_eq!(chip.pc().value(), 0x008);
}

#[test]
fn immediate_add_wraps_without_flag() {
    let mut chip = Chip::init();
    chip.consume_opcode(Opcode::ILD(r(4), 250), 0).unwrap();
    chip.consume_opcode(Opcode::IADD(r(4), 10), 0).unwrap();
    assert_eq!(chip.register(r(4)), 4);
    assert_eq!(chip.register(r(15)), 0);
}

#[test]
fn bitwise_register_ops() {
    let mut chip = Chip::init();
    chip.consume_opcode(Opcode::ILD(r(1), 0b1100), 0).unwrap();
    chip.consume_opcode(Opcode::ILD(r(2), 0b1010), 0).unwrap();
    chip.consume_opcode(Opcode::RLD(r(3), r(1)), 0).unwrap();
    chip.consume_opcode(Opcode::ROR(r(3), r(2)), 0).unwrap();
    assert_eq!(chip.register(r(3)), 0b1110);
    chip.consume_opcode(Opcode::RLD(r(3), r(1)), 0).unwrap();
    chip.consume_opcode(Opcode::RAND(r(3), r(2)), 0).unwrap();
    assert_eq!(chip.register(r(3)), 0b1000);
    chip.consume_opcode(Opcode::RLD(r(3), r(1)), 0).unwrap();
    chip.consume_opcode(Opcode::RXOR(r(3), r(2)), 0).unwrap();
    assert_eq!(chip.register(r(3)), 0b0110);
}

#[test]
fn load_clips_at_end_of_memory_and_display_block_mirrors() {
    let mut chip = Chip::init();
    let rom = vec![0xAAu8; 4096];
    chip.load(&rom);
    assert_eq!(chip.read_memory(MemAddr::new(0x1FF)), 0);
    assert_eq!(chip.read_memory(MemAddr::new(0x200)), 0xAA);
    assert_eq!(chip.read_memory(MemAddr::new(0xFFF)), 0xAA);
    let block = chip.display_block();
    assert_eq!(block.len(), 256);
    assert!(block.iter().all(|b| *b == 0xAA));
}

#[test]
fn shifting_the_flag_register_keeps_the_lost_bit() {
    let mut chip = Chip::init();
    chip.consume_opcode(Opcode::ILD(r(15), 0b0000_0011), 0).unwrap();
    chip.consume_opcode(Opcode::SHR(r(15)), 0).unwrap();
    assert_eq!(chip.register(r(15)), 1);
    chip.consume_opcode(Opcode::ILD(r(15), 0b0100_0000), 0).unwrap();
    chip.consume_opcode(Opcode::SHL(r(15)), 0).unwrap();
    assert_eq!(chip.register(r(15)), 0);
}

#[test]
fn sys_is_ignored_but_advances() {
    let mut chip = chip_with(&[0x01, 0x23]);
    assert_eq!(chip.step(0), Ok(StepOutcome::Executed(Opcode::SYS(MemAddr::new(0x123)))));
    assert_eq!(chip.pc().value(), 0x202);
}

#[test]
fn chip_exposes_packed_screen() {
    let mut chip = chip_with(&[0xA2, 0x04, 0xD0, 0x01, 0x81]);
    chip.step(0).unwrap();
    chip.step(0).unwrap();
    let packed = chip.packed_screen();
    assert_eq!(packed[0], 0x81);
    assert_eq!(packed[1], 0);
}
