//! The immutable parameter aggregate of one model: two shared axes, the
//! borders configuration and the fill configuration. The parts are held
//! behind reference-counted handles so that many models can share them
//! without copying.

use crate::axis::Axis;
use crate::borders::BordersParams;
use crate::fill_values::FillValues;
use std::sync::Arc;
use vstd::prelude::*;

verus! {

/// Immutable aggregate of everything a model generation reads.
#[derive(Debug, Clone)]
pub struct Params3D {
    pub axis_x: Arc<Axis>,
    pub axis_y: Arc<Axis>,
    pub borders_params: Arc<BordersParams>,
    pub fill_values: Arc<Vec<FillValues>>,
}

/// Relies on std's `Arc` deref: a shared handle reads exactly the value
/// it owns.
#[verifier::external_body]
pub(crate) fn arc_get<T>(a: &Arc<T>) -> (r: &T)
    ensures
        *r == **a,
{
    &**a
}

impl Params3D {
    /// Bundles the shared parts into one shared parameter set.
    pub fn new(
        axis_x: Arc<Axis>,
        axis_y: Arc<Axis>,
        borders: Arc<BordersParams>,
        fill_values: Arc<Vec<FillValues>>,
    ) -> (p: Arc<Params3D>)
        ensures
            (*p).axis_x == axis_x,
            (*p).axis_y == axis_y,
            (*p).borders_params == borders,
            (*p).fill_values == fill_values,
    {
        Arc::new(Params3D { axis_x, axis_y, borders_params: borders, fill_values })
    }

    /// Returns the shared X axis.
    pub fn axis_x(&self) -> (r: &Arc<Axis>)
        ensures
            *r == self.axis_x,
    {
        &self.axis_x
    }

    /// Returns the shared Y axis.
    pub fn axis_y(&self) -> (r: &Arc<Axis>)
        ensures
            *r == self.axis_y,
    {
        &self.axis_y
    }

    /// Returns the shared borders configuration.
    pub fn borders(&self) -> (r: &Arc<BordersParams>)
        ensures
            *r == self.borders_params,
    {
        &self.borders_params
    }

    /// Returns the shared fill configuration.
    pub fn fill_values(&self) -> (r: &Arc<Vec<FillValues>>)
        ensures
            *r == self.fill_values,
    {
        &self.fill_values
    }
}

} // verus!
