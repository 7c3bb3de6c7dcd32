use chip8::opcodes::{MemAddr, Opcode, RegIdx};

fn m(v: usize) -> MemAddr {
    MemAddr::new(v)
}

fn r(v: usize) -> RegIdx {
    RegIdx::new(v)
}

fn dec(word: u16) -> Option<Opcode> {
    Opcode::parse([(word >> 8) as u8, (word & 0xFF) as u8])
}

#[test]
fn decodes_clear_screen() {
    assert_eq!(dec(0x00E0), Some(Opcode::CLS));
}

#[test]
fn decodes_every_documented_pattern() {
    assert_eq!(dec(0x00EE), Some(Opcode::RET));
    assert_eq!(dec(0x0123), Some(Opcode::SYS(m(0x123))));
    assert_eq!(dec(0x1228), Some(Opcode::JP(m(0x228))));
    assert_eq!(dec(0x2ABC), Some(Opcode::CALL(m(0xABC))));
    assert_eq!(dec(0x3A42), Some(Opcode::ISE(r(0xA), 0x42)));
    assert_eq!(dec(0x4B17), Some(Opcode::ISNE(r(0xB), 0x17)));
    assert_eq!(dec(0x5120), Some(Opcode::RSE(r(1), r(2))));
    assert_eq!(dec(0x6A05), Some(Opcode::ILD(r(10), 5)));
    assert_eq!(dec(0x7C80), Some(Opcode::IADD(r(0xC), 0x80)));
    assert_eq!(dec(0x8120), Some(Opcode::RLD(r(1), r(2))));
    assert_eq!(dec(0x8121), Some(Opcode::ROR(r(1), r(2))));
    assert_eq!(dec(0x8122), Some(Opcode::RAND(r(1), r(2))));
    assert_eq!(dec(0x8123), Some(Opcode::RXOR(r(1), r(2))));
    assert_eq!(dec(0x8014), Some(Opcode::RADD(r(0), r(1))));
    assert_eq!(dec(0x8125), Some(Opcode::RSUB(r(1), r(2))));
    assert_eq!(dec(0x8126), Some(Opcode::SHR(r(1))));
    assert_eq!(dec(0x8127), Some(Opcode::RSUBN(r(1), r(2))));
    assert_eq!(dec(0x812E), Some(Opcode::SHL(r(1))));
    assert_eq!(dec(0x9340), Some(Opcode::RSNE(r(3), r(4))));
    assert_eq!(dec(0xA2F0), Some(Opcode::LDI(m(0x2F0))));
    assert_eq!(dec(0xB300), Some(Opcode::JPV0(m(0x300))));
    assert_eq!(dec(0xC50F), Some(Opcode::RND(r(5), 0x0F)));
    assert_eq!(dec(0xD125), Some(Opcode::DRW(r(1), r(2), 5)));
    assert_eq!(dec(0xE39E), Some(Opcode::SKP(r(3))));
    assert_eq!(dec(0xE3A1), Some(Opcode::SKNP(r(3))));
    assert_eq!(dec(0xF407), Some(Opcode::LDDT(r(4))));
    assert_eq!(dec(0xF40A), Some(Opcode::LDK(r(4))));
    assert_eq!(dec(0xF415), Some(Opcode::SETDT(r(4))));
    assert_eq!(dec(0xF418), Some(Opcode::SETST(r(4))));
    assert_eq!(dec(0xF41E), Some(Opcode::ADDI(r(4))));
    assert_eq!(dec(0xF429), Some(Opcode::LDFI(r(4))));
    assert_eq!(dec(0xF433), Some(Opcode::LDBCD(r(4))));
    assert_eq!(dec(0xF455), Some(Opcode::DUMP(r(4))));
    assert_eq!(dec(0xF465), Some(Opcode::LOAD(r(4))));
}

#[test]
fn undocumented_patterns_decode_to_nothing() {
    assert_eq!(dec(0x5121), None);
    assert_eq!(dec(0x8128), None);
    assert_eq!(dec(0x812F), None);
    assert_eq!(dec(0x9341), None);
    assert_eq!(dec(0xE300), None);
    assert_eq!(dec(0xF400), None);
    assert_eq!(dec(0xFFFF), None);
}

#[test]
fn decoding_is_deterministic() {
    for word in 0u32..=0xFFFF {
        let w = word as u16;
        assert_eq!(dec(w), dec(w));
    }
}
