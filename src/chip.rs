use crate::keyboard::{lowest_pressed, Keyboard};
use crate::mem::{block_end, written_block, Memory, DISPLAY_BLOCK_START, MEMORY_SIZE};
use crate::opcodes::{decode_spec, MemAddr, Opcode, RegIdx, REGISTER_COUNT};
use crate::screen::{collides, packed_pixels, sprite_hits, toggled, Screen, PIXEL_COUNT, SCREEN_HEIGHT, SCREEN_WIDTH};
use crate::stack::{ChipError, Stack, STACK_SIZE};
use vstd::prelude::*;

verus! {

/// Where programs are loaded and execution starts.
pub const PROGRAM_START: usize = 0x200;

/// Index of the flag register VF.
pub const FLAG_REGISTER: usize = 0xF;

/// Bytes in one instruction.
pub const INSTRUCTION_WIDTH: usize = 2;

/// Bytes in the glyph of one hex digit.
pub const GLYPH_SIZE: usize = 5;

/// The state of the machine as plain values.
pub struct ChipView {
    pub memory: Seq<u8>,
    pub v: Seq<u8>,
    pub i: MemAddr,
    pub pc: MemAddr,
    pub stack: Seq<MemAddr>,
    pub pixels: Seq<bool>,
    pub keys: Seq<bool>,
    pub delay: u8,
    pub sound: u8,
}

/// The sizes that every state of the machine has.
pub open spec fn view_wf(s: ChipView) -> bool {
    &&& s.memory.len() == MEMORY_SIZE
    &&& s.v.len() == REGISTER_COUNT
    &&& s.stack.len() <= STACK_SIZE
    &&& s.pixels.len() == PIXEL_COUNT
    &&& s.keys.len() == REGISTER_COUNT
}

/// The value of register `x`.
pub open spec fn reg(s: ChipView, x: RegIdx) -> u8 {
    s.v[x@ as int]
}

/// The flag register.
pub open spec fn flag_reg() -> RegIdx {
    RegIdx::spec_new(FLAG_REGISTER as nat)
}

/// `s` with register `x` set to `value`.
pub open spec fn with_reg(s: ChipView, x: RegIdx, value: u8) -> ChipView {
    ChipView { v: s.v.update(x@ as int, value), ..s }
}

/// `s` with the program counter moved on by `n` instructions.
pub open spec fn advanced_by(s: ChipView, n: nat) -> ChipView {
    ChipView { pc: MemAddr::spec_new((s.pc@ + n * INSTRUCTION_WIDTH) as nat), ..s }
}

/// `s` moved on to the next instruction, or past it when `cond` holds.
pub open spec fn skip_if(s: ChipView, cond: bool) -> ChipView {
    advanced_by(s, if cond { 2 } else { 1 })
}

/// 1 when `b` holds, else 0.
pub open spec fn flag(b: bool) -> u8 {
    if b { 1 } else { 0 }
}

/// The sprite rows that `DRW` with height `n` reads at the index register.
pub open spec fn sprite_rows(s: ChipView, n: u8) -> Seq<u8> {
    s.memory.subrange(s.i@ as int, block_end(s.i@, n as nat) as int)
}

/// The three decimal digits of `b`, hundreds first.
pub open spec fn bcd_digits(b: u8) -> Seq<u8> {
    seq![b / 100, (b / 10) % 10, b % 10]
}

/// What executing `op` does to `s`, with `rnd` as the random byte.
pub open spec fn execute_spec(s: ChipView, op: Opcode, rnd: u8) -> Result<ChipView, ChipError> {
    let next = advanced_by(s, 1);
    match op {
        Opcode::SYS(_) => Ok(next),
        Opcode::CLS => Ok(ChipView { pixels: Seq::new(PIXEL_COUNT as nat, |i: int| false), ..next }),
        Opcode::RET => if s.stack.len() == 0 {
            Err(ChipError::StackUnderflow)
        } else {
            Ok(advanced_by(ChipView { pc: s.stack.last(), stack: s.stack.drop_last(), ..s }, 1))
        },
        Opcode::JP(a) => Ok(ChipView { pc: a, ..s }),
        Opcode::JPV0(a) => Ok(ChipView { pc: MemAddr::spec_new((a@ + s.v[0]) as nat), ..s }),
        Opcode::CALL(a) => if s.stack.len() >= STACK_SIZE {
            Err(ChipError::StackOverflow)
        } else {
            Ok(ChipView { pc: a, stack: s.stack.push(s.pc), ..s })
        },
        Opcode::ISE(x, k) => Ok(skip_if(s, reg(s, x) == k)),
        Opcode::ISNE(x, k) => Ok(skip_if(s, reg(s, x) != k)),
        Opcode::RSE(x, y) => Ok(skip_if(s, reg(s, x) == reg(s, y))),
        Opcode::RSNE(x, y) => Ok(skip_if(s, reg(s, x) != reg(s, y))),
        Opcode::ILD(x, k) => Ok(with_reg(next, x, k)),
        Opcode::RLD(x, y) => Ok(with_reg(next, x, reg(s, y))),
        Opcode::LDI(a) => Ok(ChipView { i: a, ..next }),
        Opcode::IADD(x, k) => Ok(with_reg(next, x, ((reg(s, x) + k) % 256) as u8)),
        Opcode::RADD(x, y) => {
            let sum = reg(s, x) + reg(s, y);
            Ok(with_reg(with_reg(next, x, (sum % 256) as u8), flag_reg(), flag(sum > 255)))
        },
        Opcode::ADDI(x) => Ok(ChipView { i: MemAddr::spec_new((s.i@ + reg(s, x)) as nat), ..next }),
        Opcode::ROR(x, y) => Ok(with_reg(next, x, reg(s, x) | reg(s, y))),
        Opcode::RAND(x, y) => Ok(with_reg(next, x, reg(s, x) & reg(s, y))),
        Opcode::RXOR(x, y) => Ok(with_reg(next, x, reg(s, x) ^ reg(s, y))),
        Opcode::RSUB(x, y) => {
            let (a, b) = (reg(s, x), reg(s, y));
            Ok(with_reg(with_reg(next, x, ((a - b + 256) % 256) as u8), flag_reg(), flag(a >= b)))
        },
        Opcode::RSUBN(x, y) => {
            let (a, b) = (reg(s, x), reg(s, y));
            Ok(with_reg(with_reg(next, x, ((b - a + 256) % 256) as u8), flag_reg(), flag(b >= a)))
        },
        Opcode::SHR(x) => Ok(with_reg(with_reg(next, x, reg(s, x) >> 1u8), flag_reg(), reg(s, x) & 1)),
        Opcode::SHL(x) => Ok(
            with_reg(with_reg(next, x, ((reg(s, x) * 2) % 256) as u8), flag_reg(), reg(s, x) >> 7u8),
        ),
        Opcode::RND(x, mask) => Ok(with_reg(next, x, rnd & mask)),
        Opcode::DRW(x, y, n) => {
            let hits = sprite_hits(sprite_rows(s, n), reg(s, x) as nat, reg(s, y) as nat);
            Ok(
                with_reg(
                    ChipView { pixels: toggled(s.pixels, hits), ..next },
                    flag_reg(),
                    flag(collides(s.pixels, hits)),
                ),
            )
        },
        Opcode::SKP(x) => Ok(skip_if(s, s.keys[(reg(s, x) % 16) as int])),
        Opcode::SKNP(x) => Ok(skip_if(s, !s.keys[(reg(s, x) % 16) as int])),
        Opcode::LDDT(x) => Ok(with_reg(next, x, s.delay)),
        Opcode::SETDT(x) => Ok(ChipView { delay: reg(s, x), ..next }),
        Opcode::SETST(x) => Ok(ChipView { sound: reg(s, x), ..next }),
        Opcode::LDK(x) => match lowest_pressed(s.keys, REGISTER_COUNT as nat) {
            Some(k) => Ok(with_reg(next, x, k as u8)),
            None => Ok(s),
        },
        Opcode::LDFI(x) => Ok(
            ChipView { i: MemAddr::spec_new(((reg(s, x) % 16) * GLYPH_SIZE) as nat), ..next },
        ),
        Opcode::LDBCD(x) => Ok(
            ChipView { memory: written_block(s.memory, s.i@, bcd_digits(reg(s, x))), ..next },
        ),
        Opcode::DUMP(x) => Ok(
            ChipView { memory: written_block(s.memory, s.i@, s.v.subrange(0, x@ + 1 as int)), ..next },
        ),
        Opcode::LOAD(x) => {
            let block = s.memory.subrange(s.i@ as int, block_end(s.i@, x@ + 1) as int);
            Ok(ChipView { v: written_block(s.v, 0, block), ..next })
        },
    }
}

/// What a report of one step says.
#[derive(Clone, Copy, Debug, PartialEq, Eq)]
pub enum StepOutcome {
    /// The instruction was executed.
    Executed(Opcode),
    /// The word encodes no instruction; the program counter moved past it.
    Unrecognized(u16),
}

/// The instruction word at the program counter, high byte first.
pub open spec fn fetch_spec(s: ChipView) -> (u8, u8) {
    (s.memory[s.pc@ as int], s.memory[MemAddr::spec_new(s.pc@ + 1)@ as int])
}

/// What one fetch-decode-execute step does to `s`.
pub open spec fn step_spec(s: ChipView, rnd: u8) -> Result<(StepOutcome, ChipView), ChipError> {
    let (hi, lo) = fetch_spec(s);
    match decode_spec(hi, lo) {
        None => Ok((StepOutcome::Unrecognized((hi as nat * 256 + lo as nat) as u16), advanced_by(s, 1))),
        Some(op) => match execute_spec(s, op, rnd) {
            Ok(t) => Ok((StepOutcome::Executed(op), t)),
            Err(e) => Err(e),
        },
    }
}

/// A timer after one tick: one less, but never below zero.
pub open spec fn ticked(t: u8) -> u8 {
    if t > 0 { (t - 1) as u8 } else { 0 }
}

/// The flag register is register 15.
proof fn lemma_flag_reg()
    ensures
        flag_reg()@ == FLAG_REGISTER,
{
    RegIdx::lemma_spec_new_view(FLAG_REGISTER as nat);
}

/// Adding register `y` into register `x` sets VF to 1 exactly when the
/// unsigned sum exceeds 255, and to 0 otherwise.
pub proof fn lemma_add_sets_carry(s: ChipView, x: RegIdx, y: RegIdx, rnd: u8)
    requires
        view_wf(s),
        x@ < REGISTER_COUNT,
        y@ < REGISTER_COUNT,
    ensures
        execute_spec(s, Opcode::RADD(x, y), rnd) is Ok,
        reg(execute_spec(s, Opcode::RADD(x, y), rnd)->Ok_0, flag_reg()) == flag(
            reg(s, x) + reg(s, y) > 255,
        ),
{
    lemma_flag_reg();
}

/// Subtracting register `y` from register `x` sets VF to 1 exactly when no
/// borrow occurs, that is when `x` holds at least as much as `y`.
pub proof fn lemma_sub_sets_not_borrow(s: ChipView, x: RegIdx, y: RegIdx, rnd: u8)
    requires
        view_wf(s),
        x@ < REGISTER_COUNT,
        y@ < REGISTER_COUNT,
    ensures
        execute_spec(s, Opcode::RSUB(x, y), rnd) is Ok,
        reg(execute_spec(s, Opcode::RSUB(x, y), rnd)->Ok_0, flag_reg()) == flag(
            reg(s, x) >= reg(s, y),
        ),
        reg(execute_spec(s, Opcode::RSUBN(x, y), rnd)->Ok_0, flag_reg()) == flag(
            reg(s, y) >= reg(s, x),
        ),
{
    lemma_flag_reg();
}

/// Shifting right leaves the original bit 0 in VF; shifting left leaves the
/// original bit 7 there.
pub proof fn lemma_shift_sets_shifted_out_bit(s: ChipView, x: RegIdx, rnd: u8)
    requires
        view_wf(s),
        x@ < REGISTER_COUNT,
    ensures
        execute_spec(s, Opcode::SHR(x), rnd) is Ok,
        execute_spec(s, Opcode::SHL(x), rnd) is Ok,
        reg(execute_spec(s, Opcode::SHR(x), rnd)->Ok_0, flag_reg()) == reg(s, x) & 1,
        reg(execute_spec(s, Opcode::SHL(x), rnd)->Ok_0, flag_reg()) == reg(s, x) >> 7u8,
{
    lemma_flag_reg();
}

/// Whether `r` and `t` are what one step from `s` gives with random byte `rnd`.
pub open spec fn step_matches(s: ChipView, rnd: u8, r: Result<StepOutcome, ChipError>, t: ChipView) -> bool {
    match step_spec(s, rnd) {
        Ok((o, u)) => r == Ok::<StepOutcome, ChipError>(o) && t == u,
        Err(e) => r == Err::<StepOutcome, ChipError>(e) && t == s,
    }
}

/// Relies on rand::random: a byte from the thread-local generator. Nothing
/// is known of its value.
#[verifier::external_body]
fn random_byte() -> (r: u8) {
    rand::random::<u8>()
}

/// The 16 general-purpose registers and the index register.
pub struct Registers {
    v: Vec<u8>,
    i: MemAddr,
}

impl Registers {
    /// The general-purpose registers, V0 first.
    pub closed spec fn view(&self) -> Seq<u8> {
        self.v@
    }

    /// The index register.
    pub closed spec fn index_reg(&self) -> MemAddr {
        self.i
    }

    pub open spec fn wf(&self) -> bool {
        self@.len() == REGISTER_COUNT
    }

    /// Every register zero.
    pub fn init() -> (r: Self)
        ensures
            r.wf(),
            r@ == Seq::new(REGISTER_COUNT as nat, |k: int| 0u8),
            r.index_reg()@ == 0,
    {
        let mut v: Vec<u8> = Vec::new();
        let mut k: usize = 0;
        while k < REGISTER_COUNT
            invariant
                k <= REGISTER_COUNT,
                v@ == Seq::new(k as nat, |j: int| 0u8),
            decreases REGISTER_COUNT - k,
        {
            v.push(0u8);
            k = k + 1;
            assert(v@ =~= Seq::new(k as nat, |j: int| 0u8));
        }
        Registers { v, i: MemAddr::new(0) }
    }

    /// The value of register `idx`.
    pub fn get(&self, idx: RegIdx) -> (r: u8)
        requires
            self.wf(),
        ensures
            r == self@[idx@ as int],
    {
        self.v[idx.value()]
    }

    /// Sets register `idx` to `value`.
    pub fn set(&mut self, idx: RegIdx, value: u8)
        requires
            old(self).wf(),
        ensures
            final(self).wf(),
            final(self)@ == old(self)@.update(idx@ as int, value),
            final(self).index_reg() == old(self).index_reg(),
    {
        let k = idx.value();
        self.v[k] = value;
    }

    /// The index register.
    pub fn index_register(&self) -> (r: MemAddr)
        ensures
            r == self.index_reg(),
    {
        self.i
    }

    /// Sets the index register.
    pub fn set_index_register(&mut self, addr: MemAddr)
        ensures
            final(self)@ == old(self)@,
            final(self).index_reg() == addr,
    {
        self.i = addr;
    }
}

/// The whole machine: memory, registers, call stack, program counter,
/// framebuffer, key states and the two timers.
pub struct Chip {
    memory: Memory,
    stack: Stack,
    registers: Registers,
    pc: MemAddr,
    screen: Screen,
    keyboard: Keyboard,
    delay_timer: u8,
    sound_timer: u8,
}

impl Chip {
    /// The machine state as plain values.
    pub closed spec fn view(&self) -> ChipView {
        ChipView {
            memory: self.memory@,
            v: self.registers@,
            i: self.registers.index_reg(),
            pc: self.pc,
            stack: self.stack@,
            pixels: self.screen@,
            keys: self.keyboard@,
            delay: self.delay_timer,
            sound: self.sound_timer,
        }
    }

    /// Each part is well formed.
    pub closed spec fn inv(&self) -> bool {
        &&& self.memory.wf()
        &&& self.stack.wf()
        &&& self.registers.wf()
        &&& self.screen.wf()
        &&& self.keyboard.wf()
    }

    pub open spec fn wf(&self) -> bool {
        self.inv() && view_wf(self@)
    }

    /// A machine with zeroed memory and registers, an empty stack, a blank
    /// screen, no key down, both timers at zero and the program counter at
    /// `PROGRAM_START`.
    pub fn init() -> (r: Self)
        ensures
            r.wf(),
            r@ == (ChipView {
                memory: Seq::new(MEMORY_SIZE as nat, |k: int| 0u8),
                v: Seq::new(REGISTER_COUNT as nat, |k: int| 0u8),
                i: MemAddr::spec_new(0),
                pc: MemAddr::spec_new(PROGRAM_START as nat),
                stack: Seq::empty(),
                pixels: Seq::new(PIXEL_COUNT as nat, |k: int| false),
                keys: Seq::new(REGISTER_COUNT as nat, |k: int| false),
                delay: 0,
                sound: 0,
            }),
    {
        let registers = Registers::init();
        proof {
            MemAddr::lemma_spec_new_of_view(registers.index_reg());
        }
        Chip {
            memory: Memory::init(),
            stack: Stack::init(),
            registers,
            pc: MemAddr::new(PROGRAM_START),
            screen: Screen::init(),
            keyboard: Keyboard::init(),
            delay_timer: 0,
            sound_timer: 0,
        }
    }

    fn get_reg(&self, idx: RegIdx) -> (r: u8)
        requires
            self.wf(),
        ensures
            r == reg(self@, idx),
    {
        self.registers.get(idx)
    }

    fn set_reg(&mut self, idx: RegIdx, value: u8)
        requires
            old(self).wf(),
        ensures
            final(self).wf(),
            final(self)@ == with_reg(old(self)@, idx, value),
    {
        self.registers.set(idx, value);
    }

    fn set_flag(&mut self, b: bool)
        requires
            old(self).wf(),
        ensures
            final(self).wf(),
            final(self)@ == with_reg(old(self)@, flag_reg(), flag(b)),
    {
        self.set_reg(RegIdx::new(FLAG_REGISTER), if b { 1 } else { 0 });
    }

    fn advance(&mut self, n: usize)
        requires
            old(self).wf(),
            n <= 2,
        ensures
            final(self).wf(),
            final(self)@ == advanced_by(old(self)@, n as nat),
    {
        self.pc = self.pc.wrapping_add(MemAddr::new(n * INSTRUCTION_WIDTH));
    }

    fn set_index(&mut self, addr: MemAddr)
        requires
            old(self).wf(),
        ensures
            final(self).wf(),
            final(self)@ == (ChipView { i: addr, ..old(self)@ }),
    {
        self.registers.set_index_register(addr);
    }

    /// Executes `opcode`, with `random` as the byte that `RND` masks. A stack
    /// overflow or underflow leaves the machine unchanged and is returned.
    pub fn consume_opcode(&mut self, opcode: Opcode, random: u8) -> (r: Result<(), ChipError>)
        requires
            old(self).wf(),
        ensures
            final(self).wf(),
            match execute_spec(old(self)@, opcode, random) {
                Ok(t) => r is Ok && final(self)@ == t,
                Err(e) => r == Err::<(), ChipError>(e) && final(self)@ == old(self)@,
            },
    {
        match opcode {
            Opcode::SYS(_) => {
                self.advance(1);
            },
            Opcode::CLS => {
                self.screen.clear();
                self.advance(1);
            },
            Opcode::RET => {
                match self.stack.pop() {
                    Ok(a) => {
                        self.pc = a;
                        self.advance(1);
                    },
                    Err(e) => {
                        return Err(e);
                    },
                }
            },
            Opcode::JP(a) => {
                self.pc = a;
            },
            Opcode::JPV0(a) => {
                let v0 = self.get_reg(RegIdx::new(0));
                self.pc = a.wrapping_add(MemAddr::new(v0 as usize));
            },
            Opcode::CALL(a) => {
                match self.stack.push(self.pc) {
                    Ok(()) => {
                        self.pc = a;
                    },
                    Err(e) => {
                        return Err(e);
                    },
                }
            },
            Opcode::ISE(x, k) => {
                let c = self.get_reg(x) == k;
                self.advance(if c { 2 } else { 1 });
            },
            Opcode::ISNE(x, k) => {
                let c = self.get_reg(x) != k;
                self.advance(if c { 2 } else { 1 });
            },
            Opcode::RSE(x, y) => {
                let c = self.get_reg(x) == self.get_reg(y);
                self.advance(if c { 2 } else { 1 });
            },
            Opcode::RSNE(x, y) => {
                let c = self.get_reg(x) != self.get_reg(y);
                self.advance(if c { 2 } else { 1 });
            },
            Opcode::ILD(x, k) => {
                self.set_reg(x, k);
                self.advance(1);
            },
            Opcode::RLD(x, y) => {
                let b = self.get_reg(y);
                self.set_reg(x, b);
                self.advance(1);
            },
            Opcode::LDI(a) => {
                self.set_index(a);
                self.advance(1);
            },
            Opcode::IADD(x, k) => {
                let a = self.get_reg(x);
                self.set_reg(x, ((a as u16 + k as u16) % 256) as u8);
                self.advance(1);
            },
            Opcode::RADD(x, y) => {
                let sum = self.get_reg(x) as u16 + self.get_reg(y) as u16;
                self.set_reg(x, (sum % 256) as u8);
                self.set_flag(sum > 255);
                self.advance(1);
            },
            Opcode::ADDI(x) => {
                let b = self.get_reg(x);
                let i = self.registers.index_register();
                self.set_index(i.wrapping_add(MemAddr::new(b as usize)));
                self.advance(1);
            },
            Opcode::ROR(x, y) => {
                let b = self.get_reg(x) | self.get_reg(y);
                self.set_reg(x, b);
                self.advance(1);
            },
            Opcode::RAND(x, y) => {
                let b = self.get_reg(x) & self.get_reg(y);
                self.set_reg(x, b);
                self.advance(1);
            },
            Opcode::RXOR(x, y) => {
                let b = self.get_reg(x) ^ self.get_reg(y);
                self.set_reg(x, b);
                self.advance(1);
            },
            Opcode::RSUB(x, y) => {
                let a = self.get_reg(x);
                let b = self.get_reg(y);
                self.set_reg(x, ((a as u16 + 256 - b as u16) % 256) as u8);
                self.set_flag(a >= b);
                self.advance(1);
            },
            Opcode::RSUBN(x, y) => {
                let a = self.get_reg(x);
                let b = self.get_reg(y);
                self.set_reg(x, ((b as u16 + 256 - a as u16) % 256) as u8);
                self.set_flag(b >= a);
                self.advance(1);
            },
            Opcode::SHR(x) => {
                let b = self.get_reg(x);
                self.set_reg(x, b >> 1u8);
                self.set_reg(RegIdx::new(FLAG_REGISTER), b & 1);
                self.advance(1);
            },
            Opcode::SHL(x) => {
                let b = self.get_reg(x);
                self.set_reg(x, ((b as u16 * 2) % 256) as u8);
                self.set_reg(RegIdx::new(FLAG_REGISTER), b >> 7u8);
                self.advance(1);
            },
            Opcode::RND(x, mask) => {
                self.set_reg(x, random & mask);
                self.advance(1);
            },
            Opcode::DRW(x, y, n) => {
                let left = self.get_reg(x);
                let top = self.get_reg(y);
                let i = self.registers.index_register();
                let rows = self.memory.read_block(i, n as usize);
                let hit = self.screen.blit_sprite(rows.as_slice(), (left, top));
                self.set_flag(hit);
                self.advance(1);
            },
            Opcode::SKP(x) => {
                let key = RegIdx::new(self.get_reg(x) as usize);
                let c = self.keyboard.key_is_pressed(key);
                self.advance(if c { 2 } else { 1 });
            },
            Opcode::SKNP(x) => {
                let key = RegIdx::new(self.get_reg(x) as usize);
                let c = !self.keyboard.key_is_pressed(key);
                self.advance(if c { 2 } else { 1 });
            },
            Opcode::LDDT(x) => {
                let t = self.delay_timer;
                self.set_reg(x, t);
                self.advance(1);
            },
            Opcode::SETDT(x) => {
                self.delay_timer = self.get_reg(x);
                self.advance(1);
            },
            Opcode::SETST(x) => {
                self.sound_timer = self.get_reg(x);
                self.advance(1);
            },
            Opcode::LDK(x) => {
                match self.keyboard.first_pressed() {
                    Some(k) => {
                        self.set_reg(x, k);
                        self.advance(1);
                    },
                    None => {},
                }
            },
            Opcode::LDFI(x) => {
                let d = self.get_reg(x) % 16;
                self.set_index(MemAddr::new(d as usize * GLYPH_SIZE));
                self.advance(1);
            },
            Opcode::LDBCD(x) => {
                let b = self.get_reg(x);
                let mut digits: Vec<u8> = Vec::new();
                digits.push(b / 100);
                digits.push((b / 10) % 10);
                digits.push(b % 10);
                assert(digits@ =~= bcd_digits(b));
                let i = self.registers.index_register();
                self.memory.write_block(&i, digits.as_slice());
                self.advance(1);
            },
            Opcode::DUMP(x) => {
                let ghost s = self@;
                let n = x.value() + 1;
                let mut regs: Vec<u8> = Vec::new();
                let mut k: usize = 0;
                while k < n
                    invariant
                        k <= n <= REGISTER_COUNT,
                        self.wf(),
                        self@ == s,
                        regs@ == s.v.subrange(0, k as int),
                    decreases n - k,
                {
                    regs.push(self.registers.get(RegIdx::new(k)));
                    k = k + 1;
                    assert(regs@ =~= s.v.subrange(0, k as int));
                }
                let i = self.registers.index_register();
                self.memory.write_block(&i, regs.as_slice());
                self.advance(1);
            },
            Opcode::LOAD(x) => {
                let ghost s = self@;
                let i = self.registers.index_register();
                let n = x.value() + 1;
                let start = i.value();
                assert(start as nat == i@);
                let block = self.memory.read_block(i, n);
                assert(written_block(s.v, 0, block@.subrange(0, 0)) =~= s.v);
                let mut k: usize = 0;
                while k < block.len()
                    invariant
                        k <= block@.len() <= REGISTER_COUNT,
                        self.wf(),
                        self@ == (ChipView { v: written_block(s.v, 0, block@.subrange(0, k as int)), ..s }),
                    decreases block@.len() - k,
                {
                    self.set_reg(RegIdx::new(k), block[k]);
                    k = k + 1;
                    assert(self@.v =~= written_block(s.v, 0, block@.subrange(0, k as int)));
                }
                assert(block@.subrange(0, block@.len() as int) =~= block@);
                self.advance(1);
            },
        }
        Ok(())
    }

    /// Fetches the instruction word at the program counter, decodes it and
    /// executes it with `random` as the byte that `RND` masks. A word that
    /// encodes no instruction is reported and skipped.
    pub fn step(&mut self, random: u8) -> (r: Result<StepOutcome, ChipError>)
        requires
            old(self).wf(),
        ensures
            final(self).wf(),
            step_matches(old(self)@, random, r, final(self)@),
    {
        let hi = self.memory.read(&self.pc);
        let second = self.pc.wrapping_add(MemAddr::new(1));
        let lo = self.memory.read(&second);
        let raw: [u8; 2] = [hi, lo];
        match Opcode::parse(raw) {
            None => {
                self.advance(1);
                Ok(StepOutcome::Unrecognized(hi as u16 * 256 + lo as u16))
            },
            Some(op) => match self.consume_opcode(op, random) {
                Ok(()) => Ok(StepOutcome::Executed(op)),
                Err(e) => Err(e),
            },
        }
    }

    /// One step as `step` takes it, with a byte drawn from the thread-local
    /// random generator.
    pub fn step_random(&mut self) -> (r: Result<StepOutcome, ChipError>)
        requires
            old(self).wf(),
        ensures
            final(self).wf(),
            exists|rnd: u8| #[trigger] step_matches(old(self)@, rnd, r, final(self)@),
    {
        let rnd = random_byte();
        let r = self.step(rnd);
        r
    }

    /// One tick of the 60 Hz clock: each timer goes down by one, but not
    /// below zero.
    pub fn tick(&mut self)
        requires
            old(self).wf(),
        ensures
            final(self).wf(),
            final(self)@ == (ChipView {
                delay: ticked(old(self)@.delay),
                sound: ticked(old(self)@.sound),
                ..old(self)@
            }),
    {
        if self.delay_timer > 0 {
            self.delay_timer = self.delay_timer - 1;
        }
        if self.sound_timer > 0 {
            self.sound_timer = self.sound_timer - 1;
        }
    }

    /// Writes a program into memory from `PROGRAM_START` on; bytes past the
    /// end of memory are not written.
    pub fn load(&mut self, rom: &[u8])
        requires
            old(self).wf(),
        ensures
            final(self).wf(),
            final(self)@ == (ChipView {
                memory: written_block(old(self)@.memory, PROGRAM_START as nat, rom@),
                ..old(self)@
            }),
    {
        let start = MemAddr::new(PROGRAM_START);
        self.memory.write_block(&start, rom);
    }

    /// Records whether `key` is down.
    pub fn set_key(&mut self, key: RegIdx, down: bool)
        requires
            old(self).wf(),
        ensures
            final(self).wf(),
            final(self)@ == (ChipView { keys: old(self)@.keys.update(key@ as int, down), ..old(self)@ }),
    {
        self.keyboard.set_key(key, down);
    }

    /// The value of register `idx`.
    pub fn register(&self, idx: RegIdx) -> (r: u8)
        requires
            self.wf(),
        ensures
            r == reg(self@, idx),
    {
        self.get_reg(idx)
    }

    /// The program counter.
    pub fn pc(&self) -> (r: MemAddr)
        ensures
            r == self@.pc,
    {
        self.pc
    }

    /// The index register.
    pub fn index_register(&self) -> (r: MemAddr)
        ensures
            r == self@.i,
    {
        self.registers.index_register()
    }

    /// The delay timer.
    pub fn delay_timer(&self) -> (r: u8)
        ensures
            r == self@.delay,
    {
        self.delay_timer
    }

    /// The sound timer.
    pub fn sound_timer(&self) -> (r: u8)
        ensures
            r == self@.sound,
    {
        self.sound_timer
    }

    /// How many return addresses the call stack holds.
    pub fn stack_depth(&self) -> (r: usize)
        requires
            self.wf(),
        ensures
            r == self@.stack.len(),
    {
        self.stack.depth()
    }

    /// The byte at `addr`.
    pub fn read_memory(&self, addr: MemAddr) -> (r: u8)
        requires
            self.wf(),
        ensures
            r == self@.memory[addr@ as int],
    {
        self.memory.read(&addr)
    }

    /// Whether the pixel at column `x`, row `y` is lit.
    pub fn pixel(&self, x: usize, y: usize) -> (r: bool)
        requires
            self.wf(),
            x < SCREEN_WIDTH,
            y < SCREEN_HEIGHT,
        ensures
            r == self@.pixels[y * SCREEN_WIDTH + x],
    {
        self.screen.pixel(x, y)
    }

    /// The framebuffer packed eight pixels to a byte, 256 bytes in all.
    pub fn packed_screen(&self) -> (r: Vec<u8>)
        requires
            self.wf(),
        ensures
            r@ == packed_pixels(self@.pixels),
    {
        self.screen.packed()
    }

    /// The 256-byte display window of memory.
    pub fn display_block(&self) -> (r: Vec<u8>)
        requires
            self.wf(),
        ensures
            r@ == self@.memory.subrange(DISPLAY_BLOCK_START as int, MEMORY_SIZE as int),
    {
        self.memory.get_display_block()
    }
}

} // verus!
