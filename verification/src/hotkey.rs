//! The edge-triggered signal that bridges the global hotkey into the UI loop.
//!
//! The hotkey listener thread flips the flag (a logical XOR with the previous
//! value) once per hotkey press; the UI loop reads and resets it once per
//! frame. The sharing itself (a mutex around this value) belongs to the
//! application; this module holds the flag's semantics.

use vstd::prelude::*;

verus! {

/// A single boolean flag, flipped by the hotkey listener and consumed
/// (read-then-reset) by the UI loop. The flag itself stays private: both
/// threads go through `flip` and `consume` alone.
pub struct HotkeySignal {
    signaled: bool,
}

impl HotkeySignal {
    /// Whether a press is pending consumption.
    pub closed spec fn is_signaled(self) -> bool {
        self.signaled
    }

    /// A fresh signal starts clear: no press has happened yet.
    pub fn new() -> (s: HotkeySignal)
        ensures
            !s.is_signaled(),
    {
        HotkeySignal { signaled: false }
    }

    /// One hotkey press: XOR-flip of the previous value, so that presses that
    /// arrive between two frames cancel out in pairs.
    pub fn flip(&mut self)
        ensures
            final(self).is_signaled() == !old(self).is_signaled(),
    {
        self.signaled = !self.signaled;
    }

    /// The UI loop's read-and-reset, done once per frame.
    pub fn consume(&mut self) -> (was: bool)
        ensures
            !final(self).is_signaled(),
            was == old(self).is_signaled(),
    {
        let was = self.signaled;
        self.signaled = false;
        was
    }
}

/// The value of a flag that started at `b` after `n` flips.
pub open spec fn after_flips(b: bool, n: nat) -> bool
    decreases n,
{
    if n == 0 {
        b
    } else {
        !after_flips(b, (n - 1) as nat)
    }
}

/// Edge triggering: `n` presses move a flag that started at `b` exactly when
/// `n` is odd. In particular, `n` presses on a clear flag leave it set if and
/// only if `n` is odd.
pub proof fn lemma_flip_parity(b: bool, n: nat)
    ensures
        after_flips(b, n) == (b != (n % 2 == 1)),
    decreases n,
{
    if n > 0 {
        lemma_flip_parity(b, (n - 1) as nat);
    }
}

} // verus!
