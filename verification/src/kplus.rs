//! The compressed stock/waste pile ("K+").
//!
//! The cards not yet placed on a tableau or foundation are kept as one
//! sequence together with a draw arity `draw` (1 or 3) and a phase
//! `phase < draw`. The card at index `i` is on top of the waste -- and hence
//! playable -- iff `i % draw == phase`; removing a playable card decrements
//! the phase modulo `draw`. This models a classic stock-plus-waste pair under
//! the given draw arity without materializing a separate waste stack.

use vstd::prelude::*;

verus! {

pub struct KPlus {
    pub stock: Vec<u8>,
    pub draw: u8,
    pub phase: u8,
}

/// Well-formedness: the draw arity is 1 or 3, the phase is below it, and
/// every stored card is a valid card code.
pub open spec fn kplus_wf(k: KPlus) -> bool {
    &&& (k.draw == 1 || k.draw == 3)
    &&& k.phase < k.draw
    &&& forall|i: int| 0 <= i < k.stock@.len() ==> #[trigger] k.stock@[i] < 52
}

/// Index `i` currently holds a playable (waste-top) card.
pub open spec fn spec_playable(k: KPlus, i: usize) -> bool {
    i < k.stock@.len() && i as int % k.draw as int == k.phase as int
}

impl KPlus {
    /// All currently playable indices, in ascending order.
    pub fn playable_indices(&self) -> (r: Vec<usize>)
        requires
            self.draw >= 1,
        ensures
            forall|j: int| 0 <= j < r@.len() ==> spec_playable(*self, #[trigger] r@[j]),
            forall|i: usize| spec_playable(*self, i) ==> r@.contains(i),
            forall|j1: int, j2: int| 0 <= j1 < j2 < r@.len() ==> r@[j1] < r@[j2],
    {
        let mut r: Vec<usize> = Vec::new();
        let mut i: usize = 0;
        let n = self.stock.len();
        while i < n
            invariant
                n == self.stock@.len(),
                i <= n,
                self.draw >= 1,
                forall|j: int| 0 <= j < r@.len() ==> spec_playable(*self, #[trigger] r@[j]),
                forall|v: usize| v < i && spec_playable(*self, v) ==> r@.contains(v),
                forall|j1: int, j2: int| 0 <= j1 < j2 < r@.len() ==> r@[j1] < r@[j2],
                forall|j: int| 0 <= j < r@.len() ==> #[trigger] r@[j] < i,
            decreases n - i,
        {
            let ghost r_pre = r@;
            if i % (self.draw as usize) == self.phase as usize {
                r.push(i);
            }
            proof {
                assert forall|v: usize| v < i + 1 && spec_playable(*self, v) implies r@.contains(
                    v,
                ) by {
                    if v < i {
                        let j = choose|j: int| 0 <= j < r_pre.len() && r_pre[j] == v;
                        assert(r@[j] == v);
                    } else {
                        assert(r@[r@.len() - 1] == v);
                    }
                }
            }
            i += 1;
        }
        r
    }

    /// Remove and return the card at a playable index, turning the waste
    /// over: for draw arities above 1 the phase decrements modulo `draw`.
    pub fn take_at(&mut self, idx: usize) -> (c: u8)
        requires
            kplus_wf(*old(self)),
            spec_playable(*old(self), idx),
        ensures
            c == old(self).stock@[idx as int],
            final(self).stock@ == old(self).stock@.remove(idx as int),
            final(self).draw == old(self).draw,
            final(self).phase == if old(self).draw > 1 {
                ((old(self).phase + old(self).draw - 1) % (old(self).draw as int)) as u8
            } else {
                old(self).phase
            },
            kplus_wf(*final(self)),
    {
        let c = self.stock.remove(idx);
        if self.draw > 1 {
            self.phase = (self.phase + self.draw - 1) % self.draw;
        }
        c
    }
}

} // verus!
