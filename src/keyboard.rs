use crate::opcodes::{RegIdx, REGISTER_COUNT};
use vstd::prelude::*;

verus! {

/// The lowest of the first `n` keys that is down.
pub open spec fn lowest_pressed(keys: Seq<bool>, n: nat) -> Option<nat>
    decreases n,
{
    if n == 0 {
        None
    } else {
        match lowest_pressed(keys, (n - 1) as nat) {
            Some(k) => Some(k),
            None => if keys[n - 1] { Some((n - 1) as nat) } else { None },
        }
    }
}

/// Once some key among the first `m` is down, looking at more keys finds the same one.
proof fn lemma_lowest_pressed_stays(keys: Seq<bool>, m: nat, n: nat)
    requires
        m <= n,
        lowest_pressed(keys, m) is Some,
    ensures
        lowest_pressed(keys, n) == lowest_pressed(keys, m),
    decreases n - m,
{
    if m < n {
        lemma_lowest_pressed_stays(keys, m, (n - 1) as nat);
    }
}

/// A snapshot of which of the 16 keys are held down.
pub struct Keyboard {
    pressed: Vec<bool>,
}

impl Keyboard {
    /// Whether each key is down, by key index.
    pub closed spec fn view(&self) -> Seq<bool> {
        self.pressed@
    }

    pub open spec fn wf(&self) -> bool {
        self@.len() == REGISTER_COUNT
    }

    /// A keyboard with no key down.
    pub fn init() -> (r: Self)
        ensures
            r.wf(),
            r@ == Seq::new(REGISTER_COUNT as nat, |i: int| false),
    {
        let mut pressed: Vec<bool> = Vec::new();
        let mut k: usize = 0;
        while k < REGISTER_COUNT
            invariant
                k <= REGISTER_COUNT,
                pressed@ == Seq::new(k as nat, |i: int| false),
            decreases REGISTER_COUNT - k,
        {
            pressed.push(false);
            k = k + 1;
            assert(pressed@ =~= Seq::new(k as nat, |i: int| false));
        }
        Keyboard { pressed }
    }

    /// Whether `key` is down.
    pub fn key_is_pressed(&self, key: RegIdx) -> (r: bool)
        requires
            self.wf(),
        ensures
            r == self@[key@ as int],
    {
        self.pressed[key.value()]
    }

    /// The lowest key that is down, if any.
    pub fn first_pressed(&self) -> (r: Option<u8>)
        requires
            self.wf(),
        ensures
            match lowest_pressed(self@, REGISTER_COUNT as nat) {
                Some(k) => r == Some(k as u8) && k < REGISTER_COUNT,
                None => r is None,
            },
    {
        let mut k: usize = 0;
        while k < REGISTER_COUNT
            invariant
                k <= REGISTER_COUNT,
                self.wf(),
                lowest_pressed(self@, k as nat) is None,
            decreases REGISTER_COUNT - k,
        {
            if self.pressed[k] {
                assert(lowest_pressed(self@, (k + 1) as nat) == Some(k as nat));
                proof {
                    lemma_lowest_pressed_stays(self@, (k + 1) as nat, REGISTER_COUNT as nat);
                }
                return Some(k as u8);
            }
            k = k + 1;
        }
        None
    }

    /// Records whether `key` is down.
    pub fn set_key(&mut self, key: RegIdx, down: bool)
        requires
            old(self).wf(),
        ensures
            final(self).wf(),
            final(self)@ == old(self)@.update(key@ as int, down),
    {
        let k = key.value();
        self.pressed[k] = down;
    }
}

} // verus!
