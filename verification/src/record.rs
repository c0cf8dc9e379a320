//! The record of the layers that have been generated so far.

use vstd::prelude::*;

verus! {

/// The set of layers, each a pair of its level and the level below it, whose
/// boxes exist already.
#[derive(Debug)]
pub struct GenerationRecord {
    pairs: Vec<(u8, u8)>,
}

impl View for GenerationRecord {
    type V = Set<(u8, u8)>;

    closed spec fn view(&self) -> Set<(u8, u8)> {
        self.pairs@.to_set()
    }
}

impl GenerationRecord {
    /// A record that holds no layer.
    pub fn new() -> (record: GenerationRecord)
        ensures
            record@ == Set::<(u8, u8)>::empty(),
    {
        GenerationRecord { pairs: Vec::new() }
    }

    /// Whether the layer of `level` on top of `previous_level` has been
    /// generated.
    pub fn contains(&self, level: u8, previous_level: u8) -> (found: bool)
        ensures
            found == self@.contains((level, previous_level)),
    {
        let mut k: usize = 0;
        while k < self.pairs.len()
            invariant
                k <= self.pairs.len(),
                forall|m: int| 0 <= m < k ==> self.pairs@[m] != (level, previous_level),
            decreases self.pairs.len() - k,
        {
            let pair = self.pairs[k];
            if pair.0 == level && pair.1 == previous_level {
                return true;
            }
            k += 1;
        }
        false
    }

    /// Notes that the layer of `level` on top of `previous_level` has been
    /// generated. Returns whether the layer is new to the record.
    pub fn insert(&mut self, level: u8, previous_level: u8) -> (fresh: bool)
        ensures
            final(self)@ == old(self)@.insert((level, previous_level)),
            fresh == !old(self)@.contains((level, previous_level)),
    {
        if self.contains(level, previous_level) {
            false
        } else {
            self.pairs.push((level, previous_level));
            proof {
                old(self).pairs@.lemma_push_to_set_commute((level, previous_level));
            }
            true
        }
    }
}

impl Default for GenerationRecord {
    fn default() -> (record: GenerationRecord)
        ensures
            record@ == Set::<(u8, u8)>::empty(),
    {
        GenerationRecord::new()
    }
}

} // verus!
