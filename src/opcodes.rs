use crate::mem::{Addr, MEMORY_SIZE};
use vstd::prelude::*;

verus! {

/// Number of general-purpose registers, and of keys.
pub const REGISTER_COUNT: usize = 16;

/// An address in program memory.
pub type MemAddr = Addr<MEMORY_SIZE>;

/// The index of a register (or of a key).
pub type RegIdx = Addr<REGISTER_COUNT>;

/// One decoded instruction with its operands.
#[derive(Clone, Copy, Debug, PartialEq, Eq)]
pub enum Opcode {
    /// Machine-code routine call; ignored.
    SYS(MemAddr),
    /// Clear the screen.
    CLS,
    /// Return from a subroutine: resume after the saved call.
    RET,
    /// Jump.
    JP(MemAddr),
    /// Jump relative to register V0.
    JPV0(MemAddr),
    /// Call a subroutine, saving the address of this instruction.
    CALL(MemAddr),
    /// Skip if equal, immediate.
    ISE(RegIdx, u8),
    /// Skip if not equal, immediate.
    ISNE(RegIdx, u8),
    /// Skip if equal, register.
    RSE(RegIdx, RegIdx),
    /// Skip if not equal, register.
    RSNE(RegIdx, RegIdx),
    /// Load, immediate.
    ILD(RegIdx, u8),
    /// Load, register.
    RLD(RegIdx, RegIdx),
    /// Load the index register with an address.
    LDI(MemAddr),
    /// Add an immediate into a register, without flag.
    IADD(RegIdx, u8),
    /// Add a register into a register, carry into VF.
    RADD(RegIdx, RegIdx),
    /// Add a register into the index register.
    ADDI(RegIdx),
    /// OR a register into a register.
    ROR(RegIdx, RegIdx),
    /// AND a register into a register.
    RAND(RegIdx, RegIdx),
    /// XOR a register into a register.
    RXOR(RegIdx, RegIdx),
    /// Subtract a register from a register, not-borrow into VF.
    RSUB(RegIdx, RegIdx),
    /// As above, operands swapped.
    RSUBN(RegIdx, RegIdx),
    /// Shift a register right, the bit shifted out into VF.
    SHR(RegIdx),
    /// Shift a register left, the bit shifted out into VF.
    SHL(RegIdx),
    /// Random byte masked with an immediate.
    RND(RegIdx, u8),
    /// Draw a sprite of the given height.
    DRW(RegIdx, RegIdx, u8),
    /// Skip if the key is pressed.
    SKP(RegIdx),
    /// Skip if the key is not pressed.
    SKNP(RegIdx),
    /// Load a register from the delay timer.
    LDDT(RegIdx),
    /// Set the delay timer from a register.
    SETDT(RegIdx),
    /// Set the sound timer from a register.
    SETST(RegIdx),
    /// Load the index of the lowest key down into a register; with no key
    /// down the program counter stays, so the host's next step waits again.
    LDK(RegIdx),
    /// Point the index register at the glyph of a hex digit, glyphs being
    /// five bytes each from address 0.
    LDFI(RegIdx),
    /// Store the decimal digits of a register.
    LDBCD(RegIdx),
    /// Store registers V0 through Vx from the index register on.
    DUMP(RegIdx),
    /// Load registers V0 through Vx from the index register on.
    LOAD(RegIdx),
}

/// The instruction that the big-endian word `hi lo` encodes, if any.
pub open spec fn decode_spec(hi: u8, lo: u8) -> Option<Opcode> {
    let op = hi >> 4u8;
    let x = (hi & 0x0Fu8) as nat;
    let n = lo & 0x0Fu8;
    let addr = MemAddr::spec_new(x * 256 + lo as nat);
    let vx = RegIdx::spec_new(x);
    let vy = RegIdx::spec_new((lo >> 4u8) as nat);
    if hi == 0x00 && lo == 0xE0 {
        Some(Opcode::CLS)
    } else if hi == 0x00 && lo == 0xEE {
        Some(Opcode::RET)
    } else if op == 0x0 {
        Some(Opcode::SYS(addr))
    } else if op == 0x1 {
        Some(Opcode::JP(addr))
    } else if op == 0x2 {
        Some(Opcode::CALL(addr))
    } else if op == 0x3 {
        Some(Opcode::ISE(vx, lo))
    } else if op == 0x4 {
        Some(Opcode::ISNE(vx, lo))
    } else if op == 0x5 {
        if n == 0x0 { Some(Opcode::RSE(vx, vy)) } else { None }
    } else if op == 0x6 {
        Some(Opcode::ILD(vx, lo))
    } else if op == 0x7 {
        Some(Opcode::IADD(vx, lo))
    } else if op == 0x8 {
        if n == 0x0 {
            Some(Opcode::RLD(vx, vy))
        } else if n == 0x1 {
            Some(Opcode::ROR(vx, vy))
        } else if n == 0x2 {
            Some(Opcode::RAND(vx, vy))
        } else if n == 0x3 {
            Some(Opcode::RXOR(vx, vy))
        } else if n == 0x4 {
            Some(Opcode::RADD(vx, vy))
        } else if n == 0x5 {
            Some(Opcode::RSUB(vx, vy))
        } else if n == 0x6 {
            Some(Opcode::SHR(vx))
        } else if n == 0x7 {
            Some(Opcode::RSUBN(vx, vy))
        } else if n == 0xE {
            Some(Opcode::SHL(vx))
        } else {
            None
        }
    } else if op == 0x9 {
        if n == 0x0 { Some(Opcode::RSNE(vx, vy)) } else { None }
    } else if op == 0xA {
        Some(Opcode::LDI(addr))
    } else if op == 0xB {
        Some(Opcode::JPV0(addr))
    } else if op == 0xC {
        Some(Opcode::RND(vx, lo))
    } else if op == 0xD {
        Some(Opcode::DRW(vx, vy, n))
    } else if op == 0xE {
        if lo == 0x9E {
            Some(Opcode::SKP(vx))
        } else if lo == 0xA1 {
            Some(Opcode::SKNP(vx))
        } else {
            None
        }
    } else if lo == 0x07 {
        Some(Opcode::LDDT(vx))
    } else if lo == 0x0A {
        Some(Opcode::LDK(vx))
    } else if lo == 0x15 {
        Some(Opcode::SETDT(vx))
    } else if lo == 0x18 {
        Some(Opcode::SETST(vx))
    } else if lo == 0x1E {
        Some(Opcode::ADDI(vx))
    } else if lo == 0x29 {
        Some(Opcode::LDFI(vx))
    } else if lo == 0x33 {
        Some(Opcode::LDBCD(vx))
    } else if lo == 0x55 {
        Some(Opcode::DUMP(vx))
    } else if lo == 0x65 {
        Some(Opcode::LOAD(vx))
    } else {
        None
    }
}

/// A byte is its high nibble times 16 plus its low nibble.
proof fn lemma_nibbles(b: u8)
    ensures
        ((b >> 4u8) & 0x0Fu8) as nat * 16 + ((b & 0x0Fu8) & 0x0Fu8) as nat == b as nat,
        b >> 4u8 == (b >> 4u8) & 0x0Fu8,
        b >> 4u8 <= 0x0Fu8,
{
    assert(((b >> 4u8) & 0x0Fu8) as nat * 16 + ((b & 0x0Fu8) & 0x0Fu8) as nat == b as nat)
        by (bit_vector);
    assert(b >> 4u8 == (b >> 4u8) & 0x0Fu8) by (bit_vector);
    assert(b >> 4u8 <= 0x0Fu8) by (bit_vector);
}

impl Opcode {
    /// The 12-bit address held in the low nibbles of the three arguments.
    fn mem_addr(n2: u8, n1: u8, n0: u8) -> (r: MemAddr)
        ensures
            r == MemAddr::spec_new(
                (n2 & 0x0Fu8) as nat * 256 + (n1 & 0x0Fu8) as nat * 16 + (n0 & 0x0Fu8) as nat,
            ),
    {
        let a = (n2 & 0x0F) as usize;
        let b = (n1 & 0x0F) as usize;
        let c = (n0 & 0x0F) as usize;
        MemAddr::new(a * 256 + b * 16 + c)
    }

    /// The byte whose nibbles are the low nibbles of the two arguments.
    fn byte(k1: u8, k0: u8) -> (r: u8)
        ensures
            r as nat == (k1 & 0x0Fu8) as nat * 16 + (k0 & 0x0Fu8) as nat,
    {
        let hi = k1 & 0x0F;
        let lo = k0 & 0x0F;
        let r = (hi << 4u8) | lo;
        assert(r as nat == hi as nat * 16 + lo as nat) by (bit_vector)
            requires
                hi == k1 & 0x0Fu8,
                lo == k0 & 0x0Fu8,
                r == (hi << 4u8) | lo,
        ;
        r
    }

    /// The register named by the low nibble of `x`.
    fn reg(x: u8) -> (r: RegIdx)
        ensures
            r == RegIdx::spec_new((x & 0x0Fu8) as nat),
    {
        let n = x & 0x0F;
        proof {
            assert(n & 0x0Fu8 == n) by (bit_vector)
                requires
                    n == x & 0x0Fu8,
            ;
        }
        RegIdx::new(n as usize)
    }

    /// Decodes the big-endian instruction word `raw`; `None` for a word that
    /// encodes no instruction.
    pub fn parse(raw: [u8; 2]) -> (r: Option<Opcode>)
        ensures
            r == decode_spec(raw@[0], raw@[1]),
    {
        let hi = raw[0];
        let lo = raw[1];
        let n3 = hi >> 4;
        let n2 = hi & 0x0F;
        let n1 = lo >> 4;
        let n0 = lo & 0x0F;
        proof {
            lemma_nibbles(lo);
            assert(n2 & 0x0Fu8 == n2) by (bit_vector)
                requires
                    n2 == hi & 0x0Fu8,
            ;
        }
        let addr = Self::mem_addr(n2, n1, n0);
        let x = Self::reg(n2);
        let y = Self::reg(n1);
        let kk = Self::byte(n1, n0);
        if hi == 0x00 && lo == 0xE0 {
            Some(Opcode::CLS)
        } else if hi == 0x00 && lo == 0xEE {
            Some(Opcode::RET)
        } else if n3 == 0x0 {
            Some(Opcode::SYS(addr))
        } else if n3 == 0x1 {
            Some(Opcode::JP(addr))
        } else if n3 == 0x2 {
            Some(Opcode::CALL(addr))
        } else if n3 == 0x3 {
            Some(Opcode::ISE(x, kk))
        } else if n3 == 0x4 {
            Some(Opcode::ISNE(x, kk))
        } else if n3 == 0x5 {
            if n0 == 0x0 { Some(Opcode::RSE(x, y)) } else { None }
        } else if n3 == 0x6 {
            Some(Opcode::ILD(x, kk))
        } else if n3 == 0x7 {
            Some(Opcode::IADD(x, kk))
        } else if n3 == 0x8 {
            if n0 == 0x0 {
                Some(Opcode::RLD(x, y))
            } else if n0 == 0x1 {
                Some(Opcode::ROR(x, y))
            } else if n0 == 0x2 {
                Some(Opcode::RAND(x, y))
            } else if n0 == 0x3 {
                Some(Opcode::RXOR(x, y))
            } else if n0 == 0x4 {
                Some(Opcode::RADD(x, y))
            } else if n0 == 0x5 {
                Some(Opcode::RSUB(x, y))
            } else if n0 == 0x6 {
                Some(Opcode::SHR(x))
            } else if n0 == 0x7 {
                Some(Opcode::RSUBN(x, y))
            } else if n0 == 0xE {
                Some(Opcode::SHL(x))
            } else {
                None
            }
        } else if n3 == 0x9 {
            if n0 == 0x0 { Some(Opcode::RSNE(x, y)) } else { None }
        } else if n3 == 0xA {
            Some(Opcode::LDI(addr))
        } else if n3 == 0xB {
            Some(Opcode::JPV0(addr))
        } else if n3 == 0xC {
            Some(Opcode::RND(x, kk))
        } else if n3 == 0xD {
            Some(Opcode::DRW(x, y, n0))
        } else if n3 == 0xE {
            if lo == 0x9E {
                Some(Opcode::SKP(x))
            } else if lo == 0xA1 {
                Some(Opcode::SKNP(x))
            } else {
                None
            }
        } else if lo == 0x07 {
            Some(Opcode::LDDT(x))
        } else if lo == 0x0A {
            Some(Opcode::LDK(x))
        } else if lo == 0x15 {
            Some(Opcode::SETDT(x))
        } else if lo == 0x18 {
            Some(Opcode::SETST(x))
        } else if lo == 0x1E {
            Some(Opcode::ADDI(x))
        } else if lo == 0x29 {
            Some(Opcode::LDFI(x))
        } else if lo == 0x33 {
            Some(Opcode::LDBCD(x))
        } else if lo == 0x55 {
            Some(Opcode::DUMP(x))
        } else if lo == 0x65 {
            Some(Opcode::LOAD(x))
        } else {
            None
        }
    }
}

} // verus!
