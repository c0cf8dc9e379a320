//! Bringing the scene up to date after the subdivision level changed.

use vstd::prelude::*;
use crate::fixed::Fixed;
use crate::generate::{accepts_unit_square, computes, generate, reports};
use crate::layer::{layer, GenerateError};
use crate::plan::{lemma_plan_is_duplicate_free, plan, plan_incremental_levels};
use crate::record::GenerationRecord;
use crate::session::{fits, respond, ActionView, LayerAction};

verus! {

/// One step of a refresh: what to do for one layer of the plan.
#[derive(Debug, PartialEq, Eq)]
pub struct LayerStep {
    pub level: u8,
    pub previous_level: u8,
    pub action: LayerAction,
}

/// A [`LayerStep`] as a mathematical value.
pub struct StepView {
    pub level: u8,
    pub previous_level: u8,
    pub action: ActionView,
}

impl View for LayerStep {
    type V = StepView;

    open spec fn view(&self) -> StepView {
        StepView { level: self.level, previous_level: self.previous_level, action: self.action@ }
    }
}

/// The step for one layer of a plan, or the reason why the layer cannot be
/// generated.
pub open spec fn step(
    materialized: Set<(u8, u8)>,
    h: spec_fn(Fixed, Fixed) -> Fixed,
    pair: (u8, u8),
) -> Result<StepView, GenerateError> {
    match respond(materialized, pair.0, pair.1, layer(h, pair.0, pair.1)) {
        Ok(action) => Ok(StepView { level: pair.0, previous_level: pair.1, action }),
        Err(e) => Err(e),
    }
}

/// The steps for the layers of a plan, in the order of the plan, or the
/// error of the first layer that cannot be generated.
pub open spec fn steps(
    materialized: Set<(u8, u8)>,
    h: spec_fn(Fixed, Fixed) -> Fixed,
    pairs: Seq<(u8, u8)>,
) -> Result<Seq<StepView>, GenerateError>
    decreases pairs.len(),
{
    if pairs.len() == 0 {
        Ok(Seq::empty())
    } else {
        match steps(materialized, h, pairs.drop_last()) {
            Err(e) => Err(e),
            Ok(before) => match step(materialized, h, pairs.last()) {
                Err(e) => Err(e),
                Ok(s) => Ok(before.push(s)),
            },
        }
    }
}

/// The record holds every layer of the plan.
pub open spec fn holds_all(materialized: Set<(u8, u8)>, pairs: Seq<(u8, u8)>) -> bool {
    forall|k: int| 0 <= k < pairs.len() ==> materialized.contains(#[trigger] pairs[k])
}

/// The steps follow the plan, whatever `f` is: there is one step for each
/// layer of the plan, in the order of the plan, and its action suits a
/// request for that layer.
pub open spec fn follows<F: Fn(Fixed, Fixed) -> Fixed>(
    f: &F,
    materialized: Set<(u8, u8)>,
    pairs: Seq<(u8, u8)>,
    list: Seq<LayerStep>,
) -> bool {
    &&& list.len() == pairs.len()
    &&& forall|k: int|
        0 <= k < list.len() ==> {
            &&& (#[trigger] list[k]).level == pairs[k].0
            &&& list[k].previous_level == pairs[k].1
            &&& fits(f, materialized, pairs[k].0, pairs[k].1, list[k].action)
        }
}

/// The error is justified, whatever `f` is: it is the error of generating a
/// layer of the plan that the record did not hold.
pub open spec fn fails_on<F: Fn(Fixed, Fixed) -> Fixed>(
    f: &F,
    materialized: Set<(u8, u8)>,
    pairs: Seq<(u8, u8)>,
    e: GenerateError,
) -> bool {
    exists|k: int|
        0 <= k < pairs.len() && !materialized.contains(pairs[k]) && #[trigger] reports(
            f,
            pairs[k].0,
            pairs[k].1,
            e,
        )
}

/// The steps, or the error, that a call of [`refresh`] returned.
pub open spec fn report(r: Result<Vec<LayerStep>, GenerateError>) -> Result<
    Seq<StepView>,
    GenerateError,
> {
    match r {
        Ok(list) => Ok(list@.map_values(|s: LayerStep| s@)),
        Err(e) => Err(e),
    }
}

/// Brings the scene up to date after the level went from `previous_n` to
/// `new_n`: for each layer of the plan, in order, a step that reveals the
/// layer if the record holds it, and that carries its new boxes if not.
///
/// With success every layer of the plan is in the record afterwards. If a
/// layer cannot be generated, the error is returned and the record stays as
/// it was. Where the record holds every layer of the plan, nothing is asked
/// of `f`, not even that it can be called: such a refresh computes no height.
pub fn refresh<F: Fn(Fixed, Fixed) -> Fixed>(
    record: &mut GenerationRecord,
    previous_n: u8,
    new_n: u8,
    incremental: bool,
    f: &F,
) -> (r: Result<Vec<LayerStep>, GenerateError>)
    requires
        holds_all(old(record)@, plan(previous_n, new_n, incremental)) || accepts_unit_square(f),
    ensures
        forall|h: spec_fn(Fixed, Fixed) -> Fixed| #[trigger]
            computes(f, h) ==> report(r) == steps(
                old(record)@,
                h,
                plan(previous_n, new_n, incremental),
            ),
        r is Ok ==> final(record)@ == old(record)@.union(
            plan(previous_n, new_n, incremental).to_set(),
        ),
        r is Err ==> final(record)@ == old(record)@,
        r matches Ok(list) ==> follows(
            f,
            old(record)@,
            plan(previous_n, new_n, incremental),
            list@,
        ),
        r matches Err(e) ==> fails_on(f, old(record)@, plan(previous_n, new_n, incremental), e),
{
    let pairs = plan_incremental_levels(previous_n, new_n, incremental);
    let ghost before = record@;
    let mut list: Vec<LayerStep> = Vec::new();
    let mut k: usize = 0;
    assert(list@.map_values(|s: LayerStep| s@) =~= Seq::<StepView>::empty());
    while k < pairs.len()
        invariant
            k <= pairs.len(),
            holds_all(before, pairs@) || accepts_unit_square(f),
            pairs@ == plan(previous_n, new_n, incremental),
            before == old(record)@,
            record@ == before,
            follows(f, before, pairs@.take(k as int), list@),
            forall|h: spec_fn(Fixed, Fixed) -> Fixed| #[trigger]
                computes(f, h) ==> steps(before, h, pairs@.take(k as int)) == Ok::<
                    Seq<StepView>,
                    GenerateError,
                >(list@.map_values(|s: LayerStep| s@)),
        decreases pairs.len() - k,
    {
        let pair = pairs[k];
        let ghost done = list@.map_values(|s: LayerStep| s@);
        assert(pairs@.take(k + 1).drop_last() == pairs@.take(k as int));
        let action = if record.contains(pair.0, pair.1) {
            LayerAction::Reveal
        } else {
            match generate(pair.0, pair.1, f) {
                Ok(boxes) => LayerAction::Spawn(boxes),
                Err(e) => {
                    assert forall|h: spec_fn(Fixed, Fixed) -> Fixed| #[trigger]
                        computes(f, h) implies steps(before, h, pairs@) == Err::<
                        Seq<StepView>,
                        GenerateError,
                    >(e) by {
                        lemma_error_is_final(before, h, pairs@, k + 1);
                    }
                    assert(fails_on(f, before, pairs@, e)) by {
                        assert(reports(f, pairs@[k as int].0, pairs@[k as int].1, e));
                    }
                    return Err(e);
                },
            }
        };
        let next = LayerStep { level: pair.0, previous_level: pair.1, action };
        list.push(next);
        assert forall|h: spec_fn(Fixed, Fixed) -> Fixed| #[trigger] computes(f, h) implies steps(
            before,
            h,
            pairs@.take(k + 1),
        ) == Ok::<Seq<StepView>, GenerateError>(list@.map_values(|s: LayerStep| s@)) by {
            assert(list@.map_values(|s: LayerStep| s@) =~= done.push(next@));
        }
        k += 1;
    }
    let mut m: usize = 0;
    while m < pairs.len()
        invariant
            m <= pairs.len(),
            record@ == before.union(pairs@.take(m as int).to_set()),
        decreases pairs.len() - m,
    {
        let pair = pairs[m];
        record.insert(pair.0, pair.1);
        proof {
            assert(pairs@.take(m + 1) == pairs@.take(m as int).push(pair));
            pairs@.take(m as int).lemma_push_to_set_commute(pair);
        }
        m += 1;
    }
    assert(pairs@.take(pairs.len() as int) == pairs@);
    Ok(list)
}

/// Once a layer of the plan has failed, the rest of the plan changes nothing.
pub proof fn lemma_error_is_final(
    materialized: Set<(u8, u8)>,
    h: spec_fn(Fixed, Fixed) -> Fixed,
    pairs: Seq<(u8, u8)>,
    k: int,
)
    requires
        0 <= k <= pairs.len(),
        steps(materialized, h, pairs.take(k)) is Err,
    ensures
        steps(materialized, h, pairs) == steps(materialized, h, pairs.take(k)),
    decreases pairs.len(),
{
    if k < pairs.len() {
        assert(pairs.drop_last().take(k) == pairs.take(k));
        lemma_error_is_final(materialized, h, pairs.drop_last(), k);
    } else {
        assert(pairs.take(k) == pairs);
    }
}

/// With every layer of a plan in the record, a refresh only reveals: each
/// step is a reveal of its layer, whatever the surface is.
pub proof fn lemma_refresh_again_reveals(
    materialized: Set<(u8, u8)>,
    h: spec_fn(Fixed, Fixed) -> Fixed,
    pairs: Seq<(u8, u8)>,
)
    requires
        holds_all(materialized, pairs),
    ensures
        steps(materialized, h, pairs) == Ok::<Seq<StepView>, GenerateError>(
            Seq::new(
                pairs.len(),
                |k: int|
                    StepView {
                        level: pairs[k].0,
                        previous_level: pairs[k].1,
                        action: ActionView::Reveal,
                    },
            ),
        ),
    decreases pairs.len(),
{
    if pairs.len() > 0 {
        let shorter = pairs.drop_last();
        lemma_refresh_again_reveals(materialized, h, shorter);
        let last = pairs.last();
        let all = Seq::new(
            pairs.len(),
            |k: int|
                StepView { level: pairs[k].0, previous_level: pairs[k].1, action: ActionView::Reveal },
        );
        let most = Seq::new(
            shorter.len(),
            |k: int|
                StepView {
                    level: shorter[k].0,
                    previous_level: shorter[k].1,
                    action: ActionView::Reveal,
                },
        );
        assert(all =~= most.push(
            StepView { level: last.0, previous_level: last.1, action: ActionView::Reveal },
        ));
    } else {
        assert(Seq::new(
            pairs.len(),
            |k: int|
                StepView { level: pairs[k].0, previous_level: pairs[k].1, action: ActionView::Reveal },
        ) =~= Seq::<StepView>::empty());
    }
}

/// The steps for the layers of a plan when each layer is requested in its
/// turn, every request seeing the record as the requests before it left it.
pub open spec fn steps_in_turn(
    materialized: Set<(u8, u8)>,
    h: spec_fn(Fixed, Fixed) -> Fixed,
    pairs: Seq<(u8, u8)>,
) -> Result<Seq<StepView>, GenerateError>
    decreases pairs.len(),
{
    if pairs.len() == 0 {
        Ok(Seq::empty())
    } else {
        match steps_in_turn(materialized, h, pairs.drop_last()) {
            Err(e) => Err(e),
            Ok(before) => match step(
                materialized.union(pairs.drop_last().to_set()),
                h,
                pairs.last(),
            ) {
                Err(e) => Err(e),
                Ok(s) => Ok(before.push(s)),
            },
        }
    }
}

/// Where no layer occurs twice among `pairs`, it makes no difference
/// whether each layer is held against the record as it was at the start or
/// as the layers before it left it.
proof fn lemma_steps_in_turn(
    materialized: Set<(u8, u8)>,
    h: spec_fn(Fixed, Fixed) -> Fixed,
    pairs: Seq<(u8, u8)>,
)
    requires
        pairs.no_duplicates(),
    ensures
        steps(materialized, h, pairs) == steps_in_turn(materialized, h, pairs),
    decreases pairs.len(),
{
    if pairs.len() > 0 {
        lemma_steps_in_turn(materialized, h, pairs.drop_last());
    }
}

/// A refresh is its requests in turn: because no layer occurs twice in a
/// plan, the steps of a refresh are those of requesting the layers of the
/// plan one after another, each request seeing the layers that the requests
/// before it added to the record.
pub proof fn lemma_refresh_is_requests_in_turn(
    materialized: Set<(u8, u8)>,
    h: spec_fn(Fixed, Fixed) -> Fixed,
    previous_n: u8,
    new_n: u8,
    incremental: bool,
)
    ensures
        steps(materialized, h, plan(previous_n, new_n, incremental)) == steps_in_turn(
            materialized,
            h,
            plan(previous_n, new_n, incremental),
        ),
{
    lemma_plan_is_duplicate_free(previous_n, new_n, incremental);
    lemma_steps_in_turn(materialized, h, plan(previous_n, new_n, incremental));
}

} // verus!
