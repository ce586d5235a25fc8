//! The references that a run has already taken up.

use crate::text::texts;
use vstd::prelude::*;

verus! {

/// The raw references seen so far in a run, each once, in the order in which
/// they were first seen. Two references are the same when their texts are, as
/// written in the source: what they resolve to plays no part.
pub struct DirectiveRegistry {
    seen: Vec<String>,
}

impl View for DirectiveRegistry {
    type V = Seq<Seq<char>>;

    closed spec fn view(&self) -> Seq<Seq<char>> {
        texts(self.seen@)
    }
}

impl DirectiveRegistry {
    /// No reference is recorded twice.
    pub open spec fn wf(&self) -> bool {
        self@.no_duplicates()
    }

    /// A registry that has seen nothing.
    pub fn new() -> (registry: Self)
        ensures
            registry@ == Seq::<Seq<char>>::empty(),
            registry.wf(),
    {
        let registry = DirectiveRegistry { seen: Vec::new() };
        assert(registry@ =~= Seq::<Seq<char>>::empty());
        registry
    }

    /// How many distinct references have been seen.
    pub fn len(&self) -> (n: usize)
        ensures
            n == self@.len(),
    {
        self.seen.len()
    }

    /// Whether `raw_reference` has been seen.
    pub fn contains(&self, raw_reference: &str) -> (seen: bool)
        ensures
            seen == self@.contains(raw_reference@),
    {
        let wanted = raw_reference.to_owned();
        let mut i: usize = 0;
        while i < self.seen.len()
            invariant
                i <= self.seen.len(),
                wanted@ == raw_reference@,
                forall|k: int| 0 <= k < i ==> self@[k] != raw_reference@,
            decreases self.seen.len() - i,
        {
            if self.seen[i] == wanted {
                assert(self@[i as int] == raw_reference@);
                return true;
            }
            i += 1;
        }
        false
    }

    /// Records `raw_reference` unless it is there already, and says whether
    /// it was new: `true` the first time a text is offered, `false` every
    /// time after.
    pub fn mark_and_check(&mut self, raw_reference: &str) -> (novel: bool)
        ensures
            novel == !old(self)@.contains(raw_reference@),
            final(self)@ == if novel {
                old(self)@.push(raw_reference@)
            } else {
                old(self)@
            },
            final(self)@.contains(raw_reference@),
            old(self).wf() ==> final(self).wf(),
    {
        if self.contains(raw_reference) {
            false
        } else {
            let ghost before = self@;
            self.seen.push(raw_reference.to_owned());
            proof {
                assert(self@ =~= before.push(raw_reference@));
                assert(self@[before.len() as int] == raw_reference@);
                if before.no_duplicates() {
                    assert forall|i: int, j: int|
                        0 <= i < self@.len() && 0 <= j < self@.len() && i != j implies self@[i]
                        != self@[j] by {
                        if i < before.len() && j < before.len() {
                        } else if i < before.len() {
                            assert(before.contains(before[i]));
                        } else {
                            assert(before.contains(before[j]));
                        }
                    }
                }
            }
            true
        }
    }
}

} // verus!
