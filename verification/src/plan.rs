//! Which layers a change of the subdivision level asks for.

use vstd::prelude::*;

verus! {

/// The layers to show after the level went from `previous_n` to `new_n`,
/// each as a pair of its level and the level below it.
///
/// In incremental mode a rising level asks for every refinement in between
/// as a layer of its own: `(k, k - 1)` for each `k` above `previous_n` up to
/// `new_n`. Otherwise the whole staircase of `new_n` stands on the ground:
/// the single pair `(new_n, 0)`.
pub open spec fn plan(previous_n: u8, new_n: u8, incremental: bool) -> Seq<(u8, u8)> {
    if incremental && new_n > previous_n {
        Seq::new(
            (new_n - previous_n) as nat,
            |k: int| ((previous_n + 1 + k) as u8, (previous_n + k) as u8),
        )
    } else {
        seq![(new_n, 0u8)]
    }
}

/// Lists the layers to show after the level went from `previous_n` to
/// `new_n`.
pub fn plan_incremental_levels(previous_n: u8, new_n: u8, incremental: bool) -> (pairs: Vec<
    (u8, u8),
>)
    ensures
        pairs@ == plan(previous_n, new_n, incremental),
{
    let mut pairs: Vec<(u8, u8)> = Vec::new();
    if incremental && new_n > previous_n {
        let mut below: u8 = previous_n;
        while below < new_n
            invariant
                previous_n <= below <= new_n,
                pairs@ == Seq::new(
                    (below - previous_n) as nat,
                    |k: int| ((previous_n + 1 + k) as u8, (previous_n + k) as u8),
                ),
            decreases new_n - below,
        {
            pairs.push((below + 1, below));
            below = below + 1;
        }
    } else {
        pairs.push((new_n, 0));
    }
    pairs
}

/// In a plan no layer occurs twice.
pub proof fn lemma_plan_is_duplicate_free(previous_n: u8, new_n: u8, incremental: bool)
    ensures
        plan(previous_n, new_n, incremental).no_duplicates(),
{
}

/// Whether a change of the level to `target_level` hides the layers of
/// `layer_level`: it hides those that are deeper than the target.
pub fn hides(target_level: u8, layer_level: u8) -> (hidden: bool)
    ensures
        hidden == (target_level < layer_level),
{
    target_level < layer_level
}

/// No layer of a plan is deeper than the new level, so a change of the level
/// never hides a layer that its own plan shows. The last layer of the plan
/// reaches the new level.
pub proof fn lemma_plan_stays_visible(previous_n: u8, new_n: u8, incremental: bool)
    ensures
        plan(previous_n, new_n, incremental).len() >= 1,
        plan(previous_n, new_n, incremental).last().0 == new_n,
        forall|k: int|
            0 <= k < plan(previous_n, new_n, incremental).len() ==> (#[trigger] plan(
                previous_n,
                new_n,
                incremental,
            )[k]).0 <= new_n,
{
}

} // verus!
