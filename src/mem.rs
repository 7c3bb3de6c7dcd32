use vstd::prelude::*;

verus! {

/// Number of bytes in the address space.
pub const MEMORY_SIZE: usize = 4096;

/// Start of the 256-byte window mirrored by the legacy display convention.
pub const DISPLAY_BLOCK_START: usize = 0xF00;

/// Length of the display window.
pub const DISPLAY_BLOCK_LEN: usize = 0x100;

/// An index into a space of `MAX` cells. Every value is reduced into
/// `[0, MAX)` on construction, so indexing with it can never go out of range.
#[derive(Clone, Copy, Debug)]
pub struct Addr<const MAX: usize> {
    value: usize,
}

impl<const MAX: usize> Addr<MAX> {
    #[verifier::type_invariant]
    spec fn in_range(self) -> bool {
        self.value < MAX
    }

    /// The index as a number.
    pub closed spec fn view(&self) -> nat {
        self.value as nat
    }

    /// The address that a raw value reduces to.
    pub closed spec fn spec_new(raw: nat) -> Self {
        Addr { value: (raw % (MAX as nat)) as usize }
    }

    /// Reducing a raw value keeps its remainder modulo the capacity.
    pub proof fn lemma_spec_new_view(raw: nat)
        requires
            0 < MAX,
        ensures
            Self::spec_new(raw)@ == raw % (MAX as nat),
    {
    }

    /// Two addresses are the same exactly when their values are.
    pub proof fn lemma_view_eq(a: Self, b: Self)
        ensures
            (a@ == b@) <==> a == b,
    {
    }

    /// An address is the address of its own value.
    pub proof fn lemma_spec_new_of_view(a: Self)
        requires
            a@ < MAX,
        ensures
            Self::spec_new(a@) == a,
    {
        assert(a@ % (MAX as nat) == a@) by (nonlinear_arith)
            requires a@ < MAX;
    }

    /// Builds the address of `raw`, reduced modulo the capacity.
    pub fn new(raw: usize) -> (r: Self)
        requires
            0 < MAX,
        ensures
            r == Self::spec_new(raw as nat),
            r@ == raw as nat % (MAX as nat),
            r@ < MAX,
    {
        Addr { value: raw % MAX }
    }

    /// The value, always below the capacity.
    pub fn value(&self) -> (r: usize)
        ensures
            r as nat == self@,
            r < MAX,
    {
        proof {
            use_type_invariant(self);
        }
        self.value
    }

    /// The sum of two addresses, wrapped around the capacity.
    pub fn wrapping_add(self, rhs: Self) -> (r: Self)
        ensures
            r@ == (self@ + rhs@) % (MAX as nat),
            r == Self::spec_new(self@ + rhs@),
    {
        proof {
            use_type_invariant(&self);
            use_type_invariant(&rhs);
        }
        let room = MAX - rhs.value;
        if self.value >= room {
            let v = self.value - room;
            assert((self@ + rhs@) % (MAX as nat) == v) by (nonlinear_arith)
                requires
                    self@ + rhs@ == v + MAX,
                    v < MAX,
            ;
            Addr { value: v }
        } else {
            let v = self.value + rhs.value;
            assert((self@ + rhs@) % (MAX as nat) == v) by (nonlinear_arith)
                requires
                    self@ + rhs@ == v,
                    v < MAX,
            ;
            Addr { value: v }
        }
    }

    /// Whether the value lies at or beyond the capacity; never the case for a
    /// value built by this type.
    pub fn is_overflow(&self) -> (r: bool)
        ensures
            r == (self@ >= MAX),
            !r,
    {
        proof {
            use_type_invariant(self);
        }
        self.value >= MAX
    }
}

impl<const MAX: usize> PartialEq for Addr<MAX> {
    fn eq(&self, other: &Self) -> (r: bool) {
        self.value == other.value
    }
}

impl<const MAX: usize> vstd::std_specs::cmp::PartialEqSpecImpl for Addr<MAX> {
    open spec fn obeys_eq_spec() -> bool {
        true
    }

    open spec fn eq_spec(&self, other: &Self) -> bool {
        self@ == other@
    }
}

impl<const MAX: usize> Eq for Addr<MAX> {}

impl<const MAX: usize> PartialOrd for Addr<MAX> {
    fn partial_cmp(&self, other: &Self) -> (r: Option<core::cmp::Ordering>) {
        if self.value < other.value {
            Some(core::cmp::Ordering::Less)
        } else if self.value == other.value {
            Some(core::cmp::Ordering::Equal)
        } else {
            Some(core::cmp::Ordering::Greater)
        }
    }
}

impl<const MAX: usize> vstd::std_specs::cmp::PartialOrdSpecImpl for Addr<MAX> {
    open spec fn obeys_partial_cmp_spec() -> bool {
        true
    }

    open spec fn partial_cmp_spec(&self, other: &Self) -> Option<core::cmp::Ordering> {
        if self@ < other@ {
            Some(core::cmp::Ordering::Less)
        } else if self@ == other@ {
            Some(core::cmp::Ordering::Equal)
        } else {
            Some(core::cmp::Ordering::Greater)
        }
    }
}

/// A raw value below the size of memory is its own address; a larger one
/// wraps around modulo that size.
pub proof fn lemma_memory_address_reduction(v: nat)
    ensures
        v < MEMORY_SIZE ==> Addr::<MEMORY_SIZE>::spec_new(v)@ == v,
        Addr::<MEMORY_SIZE>::spec_new(v)@ == v % (MEMORY_SIZE as nat),
{
    Addr::<MEMORY_SIZE>::lemma_spec_new_view(v);
}

/// The bytes of the address space, always `MEMORY_SIZE` of them.
pub struct Memory {
    bytes: Vec<u8>,
}

/// One past the last address that a block of `len` bytes at `start` covers:
/// blocks are clipped at the end of the address space.
pub open spec fn block_end(start: nat, len: nat) -> nat {
    if start + len < MEMORY_SIZE {
        start + len
    } else {
        MEMORY_SIZE as nat
    }
}

/// `mem` with `data` written from `start` on; bytes that would fall past the
/// end of the address space are dropped.
pub open spec fn written_block(mem: Seq<u8>, start: nat, data: Seq<u8>) -> Seq<u8> {
    Seq::new(
        mem.len(),
        |i: int|
            if start <= i < start + data.len() {
                data[i - start]
            } else {
                mem[i]
            },
    )
}

impl Memory {
    /// The bytes, by address.
    pub closed spec fn view(&self) -> Seq<u8> {
        self.bytes@
    }

    pub open spec fn wf(&self) -> bool {
        self@.len() == MEMORY_SIZE
    }

    /// An address space filled with zeros.
    pub fn init() -> (r: Self)
        ensures
            r.wf(),
            r@ == Seq::new(MEMORY_SIZE as nat, |i: int| 0u8),
    {
        let mut bytes: Vec<u8> = Vec::new();
        let mut k: usize = 0;
        while k < MEMORY_SIZE
            invariant
                k <= MEMORY_SIZE,
                bytes@ == Seq::new(k as nat, |i: int| 0u8),
            decreases MEMORY_SIZE - k,
        {
            bytes.push(0u8);
            k = k + 1;
            assert(bytes@ =~= Seq::new(k as nat, |i: int| 0u8));
        }
        Memory { bytes }
    }

    /// The byte at `addr`.
    pub fn read(&self, addr: &Addr<MEMORY_SIZE>) -> (r: u8)
        requires
            self.wf(),
        ensures
            r == self@[addr@ as int],
    {
        self.bytes[addr.value()]
    }

    /// Stores `byte` at `addr`.
    pub fn write(&mut self, addr: &Addr<MEMORY_SIZE>, byte: u8)
        requires
            old(self).wf(),
        ensures
            final(self).wf(),
            final(self)@ == old(self)@.update(addr@ as int, byte),
    {
        let k = addr.value();
        self.bytes[k] = byte;
    }

    /// The `len` bytes from `start_addr` on, clipped at the end of the
    /// address space.
    pub fn read_block(&self, start_addr: Addr<MEMORY_SIZE>, len: usize) -> (r: Vec<u8>)
        requires
            self.wf(),
        ensures
            r@ == self@.subrange(start_addr@ as int, block_end(start_addr@, len as nat) as int),
    {
        let start = start_addr.value();
        let stop: usize = if len < MEMORY_SIZE - start {
            start + len
        } else {
            MEMORY_SIZE
        };
        let mut out: Vec<u8> = Vec::new();
        let mut k: usize = start;
        while k < stop
            invariant
                start <= k <= stop <= MEMORY_SIZE,
                self.wf(),
                out@ == self@.subrange(start as int, k as int),
            decreases stop - k,
        {
            out.push(self.bytes[k]);
            k = k + 1;
            assert(out@ =~= self@.subrange(start as int, k as int));
        }
        out
    }

    /// Writes `data` from `start_addr` on; bytes that would fall past the end
    /// of the address space are not written.
    pub fn write_block(&mut self, start_addr: &Addr<MEMORY_SIZE>, data: &[u8])
        requires
            old(self).wf(),
        ensures
            final(self).wf(),
            final(self)@ == written_block(old(self)@, start_addr@, data@),
    {
        let start = start_addr.value();
        let n: usize = if data.len() < MEMORY_SIZE - start {
            data.len()
        } else {
            MEMORY_SIZE - start
        };
        let ghost before = self@;
        let mut k: usize = 0;
        while k < n
            invariant
                k <= n,
                start + n <= MEMORY_SIZE,
                n <= data@.len(),
                start == start_addr@,
                before.len() == MEMORY_SIZE,
                self.wf(),
                self@ == written_block(before, start as nat, data@.subrange(0, k as int)),
            decreases n - k,
        {
            self.bytes[start + k] = data[k];
            k = k + 1;
            assert(self@ =~= written_block(before, start as nat, data@.subrange(0, k as int)));
        }
        assert(written_block(before, start as nat, data@.subrange(0, n as int))
            =~= written_block(before, start as nat, data@));
    }

    /// The 256 bytes of the display window at `DISPLAY_BLOCK_START`.
    pub fn get_display_block(&self) -> (r: Vec<u8>)
        requires
            self.wf(),
        ensures
            r@ == self@.subrange(DISPLAY_BLOCK_START as int, MEMORY_SIZE as int),
            r@.len() == DISPLAY_BLOCK_LEN,
    {
        self.read_block(Addr::new(DISPLAY_BLOCK_START), DISPLAY_BLOCK_LEN)
    }
}

} // verus!
