use crate::opcodes::MemAddr;
use vstd::prelude::*;

verus! {

/// Number of return addresses the call stack holds.
pub const STACK_SIZE: usize = 16;

/// What can make a step of the machine fail.
#[derive(Clone, Copy, Debug, PartialEq, Eq, Structural)]
pub enum ChipError {
    /// A call with every stack slot in use.
    StackOverflow,
    /// A return with no saved address.
    StackUnderflow,
}

/// A fixed array of saved program counters; the pointer counts the occupied
/// slots, which are the lowest ones.
pub struct Stack {
    program_counters: Vec<Option<MemAddr>>,
    ptr: usize,
}

impl Stack {
    /// The saved addresses, oldest first.
    pub closed spec fn view(&self) -> Seq<MemAddr> {
        Seq::new(self.ptr as nat, |i: int| self.program_counters@[i]->Some_0)
    }

    /// The slots below the pointer are occupied and the others empty.
    pub closed spec fn inv(&self) -> bool {
        &&& self.program_counters@.len() == STACK_SIZE
        &&& self.ptr <= STACK_SIZE
        &&& forall|i: int|
            0 <= i < STACK_SIZE ==> (#[trigger] self.program_counters@[i] is Some <==> i < self.ptr)
    }

    pub open spec fn wf(&self) -> bool {
        self.inv() && self@.len() <= STACK_SIZE
    }

    /// An empty stack.
    pub fn init() -> (r: Self)
        ensures
            r.wf(),
            r@ == Seq::<MemAddr>::empty(),
    {
        let mut program_counters: Vec<Option<MemAddr>> = Vec::new();
        let mut k: usize = 0;
        while k < STACK_SIZE
            invariant
                k <= STACK_SIZE,
                program_counters@.len() == k,
                forall|i: int| 0 <= i < k ==> #[trigger] program_counters@[i] is None,
            decreases STACK_SIZE - k,
        {
            program_counters.push(None);
            k = k + 1;
        }
        let r = Stack { program_counters, ptr: 0 };
        assert(r@ =~= Seq::<MemAddr>::empty());
        r
    }

    /// How many addresses are saved.
    pub fn depth(&self) -> (r: usize)
        requires
            self.wf(),
        ensures
            r == self@.len(),
    {
        self.ptr
    }

    /// Saves `pc` on top of the stack; fails when every slot is in use.
    pub fn push(&mut self, pc: MemAddr) -> (r: Result<(), ChipError>)
        requires
            old(self).wf(),
        ensures
            final(self).wf(),
            old(self)@.len() < STACK_SIZE ==> r == Ok::<(), ChipError>(())
                && final(self)@ == old(self)@.push(pc),
            old(self)@.len() >= STACK_SIZE ==> r == Err::<(), ChipError>(ChipError::StackOverflow)
                && final(self)@ == old(self)@,
    {
        if self.ptr >= STACK_SIZE {
            Err(ChipError::StackOverflow)
        } else {
            let ghost before = self@;
            let idx = self.ptr;
            self.program_counters[idx] = Some(pc);
            self.ptr = idx + 1;
            assert(self@ =~= before.push(pc));
            Ok(())
        }
    }

    /// Takes the most recently saved address off the stack, clearing its
    /// slot; fails when the stack is empty.
    pub fn pop(&mut self) -> (r: Result<MemAddr, ChipError>)
        requires
            old(self).wf(),
        ensures
            final(self).wf(),
            old(self)@.len() > 0 ==> r == Ok::<MemAddr, ChipError>(old(self)@.last())
                && final(self)@ == old(self)@.drop_last(),
            old(self)@.len() == 0 ==> r == Err::<MemAddr, ChipError>(ChipError::StackUnderflow)
                && final(self)@ == old(self)@,
    {
        if self.ptr == 0 {
            Err(ChipError::StackUnderflow)
        } else {
            let ghost before = self@;
            let idx = self.ptr - 1;
            let top = self.program_counters[idx];
            self.program_counters[idx] = None;
            self.ptr = idx;
            assert(self@ =~= before.drop_last());
            match top {
                Some(pc) => Ok(pc),
                None => {
                    assert(false);
                    Err(ChipError::StackUnderflow)
                },
            }
        }
    }
}

/// Popping right after pushing `a` gives back `a` and the stack as it was.
pub proof fn lemma_pop_after_push(s: Seq<MemAddr>, a: MemAddr)
    ensures
        s.push(a).len() > 0,
        s.push(a).last() == a,
        s.push(a).drop_last() == s,
{
    assert(s.push(a).drop_last() =~= s);
}

} // verus!
