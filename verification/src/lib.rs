//! Staircase approximation of a surface over the unit square.
//!
//! The unit square is halved `level` times along each axis, which gives a grid
//! of `2^level` by `2^level` cells. A layer holds, for each cell, a box from
//! the height that a coarser layer reaches there up to the height of the
//! surface above the cell's lower corner. Layers of rising levels stack into
//! an ever finer staircase under the surface.
//!
//! All coordinates and heights are exact fixed-point numbers ([`Fixed`]), so
//! the boxes of one layer stand on the boxes of the layer below without
//! rounding. The surface is any function from a point of the unit square to
//! a height; [`f`] is the surface `x + y`.
//!
//! [`generate`] computes one layer, [`plan_incremental_levels`] says which
//! layers a change of the level asks for, and [`request`] and [`refresh`]
//! serve such requests from a [`GenerationRecord`], which makes sure that no
//! layer is generated twice.

pub mod fixed;
pub mod grid;
pub mod boxes;
pub mod layer;
pub mod generate;
pub mod theory;
pub mod surface;
pub mod plan;
pub mod record;
pub mod session;
pub mod refresh;
pub mod config;
pub mod looks;

pub use crate::config::{change_cubes, plane};
pub use crate::boxes::{classify, BoxSpec, CellOutcome, MIN_HEIGHT_RAW};
pub use crate::fixed::{Fixed, FRAC_BITS, ONE_RAW};
pub use crate::generate::generate;
pub use crate::grid::MAX_LEVEL;
pub use crate::layer::GenerateError;
pub use crate::plan::{hides, plan_incremental_levels};
pub use crate::record::GenerationRecord;
pub use crate::refresh::{refresh, LayerStep};
pub use crate::session::{request, LayerAction};
pub use crate::surface::f;
