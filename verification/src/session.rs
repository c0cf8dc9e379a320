//! Serving requests for layers: generate a layer once, reveal it afterwards.

use vstd::prelude::*;
use crate::boxes::BoxSpec;
use crate::fixed::Fixed;
use crate::generate::{accepts_unit_square, computes, draws, generate, reports};
use crate::layer::{layer, GenerateError};
use crate::record::GenerationRecord;

verus! {

/// What the scene has to do for a requested layer.
#[derive(Debug, PartialEq, Eq)]
pub enum LayerAction {
    /// The boxes of the layer exist already: make them visible.
    Reveal,
    /// The layer is new: create these boxes.
    Spawn(Vec<BoxSpec>),
}

/// A [`LayerAction`] as a mathematical value.
pub enum ActionView {
    Reveal,
    Spawn(Seq<BoxSpec>),
}

impl View for LayerAction {
    type V = ActionView;

    open spec fn view(&self) -> ActionView {
        match self {
            LayerAction::Reveal => ActionView::Reveal,
            LayerAction::Spawn(boxes) => ActionView::Spawn(boxes@),
        }
    }
}

/// The answer to a request for the layer of `level` on top of
/// `previous_level`, where `materialized` holds the layers that exist and
/// `generated` is what generating the layer gives.
pub open spec fn respond(
    materialized: Set<(u8, u8)>,
    level: u8,
    previous_level: u8,
    generated: Result<Seq<BoxSpec>, GenerateError>,
) -> Result<ActionView, GenerateError> {
    if materialized.contains((level, previous_level)) {
        Ok(ActionView::Reveal)
    } else {
        match generated {
            Ok(boxes) => Ok(ActionView::Spawn(boxes)),
            Err(e) => Err(e),
        }
    }
}

/// The layers that exist after such a request: a layer that was generated
/// is added, a failed request changes nothing.
pub open spec fn record_after(
    materialized: Set<(u8, u8)>,
    level: u8,
    previous_level: u8,
    generated: Result<Seq<BoxSpec>, GenerateError>,
) -> Set<(u8, u8)> {
    if respond(materialized, level, previous_level, generated) is Ok {
        materialized.insert((level, previous_level))
    } else {
        materialized
    }
}

/// The action, or the error, that a call of [`request`] returned.
pub open spec fn answer(r: Result<LayerAction, GenerateError>) -> Result<ActionView, GenerateError> {
    match r {
        Ok(action) => Ok(action@),
        Err(e) => Err(e),
    }
}

/// The action suits a request for the layer of `level` on top of
/// `previous_level`, whatever `f` is: it is a reveal exactly when the record
/// held the layer, and else it carries boxes in row-major order, each the box
/// of a cell for heights that `f` returned there, and with them every cell is
/// accounted for.
pub open spec fn fits<F: Fn(Fixed, Fixed) -> Fixed>(
    f: &F,
    materialized: Set<(u8, u8)>,
    level: u8,
    previous_level: u8,
    action: LayerAction,
) -> bool {
    match action {
        LayerAction::Reveal => materialized.contains((level, previous_level)),
        LayerAction::Spawn(boxes) => {
            &&& !materialized.contains((level, previous_level))
            &&& draws(f, level as nat, previous_level as nat, boxes@)
        },
    }
}

/// Serves a request for the layer of `level` on top of `previous_level`.
///
/// A layer that the record holds is revealed. Nothing is asked of `f` then,
/// not even that it can be called: such a request computes no height. A
/// layer that the record does not hold is generated from `f` and added to the
/// record; if generating fails, the record stays as it was.
pub fn request<F: Fn(Fixed, Fixed) -> Fixed>(
    record: &mut GenerationRecord,
    level: u8,
    previous_level: u8,
    f: &F,
) -> (r: Result<LayerAction, GenerateError>)
    requires
        old(record)@.contains((level, previous_level)) || accepts_unit_square(f),
    ensures
        old(record)@.contains((level, previous_level)) ==> answer(r) == Ok::<
            ActionView,
            GenerateError,
        >(ActionView::Reveal) && final(record)@ == old(record)@,
        forall|h: spec_fn(Fixed, Fixed) -> Fixed| #[trigger]
            computes(f, h) ==> {
                let generated = layer(h, level, previous_level);
                &&& answer(r) == respond(old(record)@, level, previous_level, generated)
                &&& final(record)@ == record_after(old(record)@, level, previous_level, generated)
            },
        r is Ok ==> final(record)@ == old(record)@.insert((level, previous_level)),
        r is Err ==> final(record)@ == old(record)@,
        r matches Ok(action) ==> fits(f, old(record)@, level, previous_level, action),
        r matches Err(e) ==> !old(record)@.contains((level, previous_level)) && reports(
            f,
            level,
            previous_level,
            e,
        ),
{
    if record.contains(level, previous_level) {
        return Ok(LayerAction::Reveal);
    }
    match generate(level, previous_level, f) {
        Ok(boxes) => {
            record.insert(level, previous_level);
            Ok(LayerAction::Spawn(boxes))
        },
        Err(e) => Err(e),
    }
}

/// A layer that was requested with success is revealed when it is requested
/// again, whatever generating it would give then.
pub proof fn lemma_repeated_request_reveals(
    materialized: Set<(u8, u8)>,
    level: u8,
    previous_level: u8,
    first: Result<Seq<BoxSpec>, GenerateError>,
    second: Result<Seq<BoxSpec>, GenerateError>,
)
    requires
        respond(materialized, level, previous_level, first) is Ok,
    ensures
        ({
            let after = record_after(materialized, level, previous_level, first);
            &&& respond(after, level, previous_level, second) == Ok::<ActionView, GenerateError>(
                ActionView::Reveal,
            )
            &&& record_after(after, level, previous_level, second) == after
        }),
{
    let after = record_after(materialized, level, previous_level, first);
}

} // verus!
