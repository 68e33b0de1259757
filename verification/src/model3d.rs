//! Model assembly: drives the border generation once per configured
//! layer and pairs the resulting border stack with the immutable
//! parameter snapshot. Validation of the generated layers is opt-in, and
//! the caller decides whether a violation aborts the assembly or is
//! attached as a warning.

use crate::borders::BorderType;
use crate::borders3d::Violation;
use crate::borders3d::borders_config_ok;
use crate::borders3d::generate_borders;
use crate::borders3d::grid_within;
use crate::borders3d::layer_limits;
use crate::borders3d::layer_matches;
use crate::borders3d::layer_policy;
use crate::borders3d::layer_step;
use crate::borders3d::layer_valid;
use crate::borders3d::step_bounded_left;
use crate::borders3d::step_bounded_up;
use crate::borders3d::udiff;
use crate::borders3d::validate_layer;
use crate::borders3d::violation_holds;
use crate::params3d::Params3D;
use crate::params3d::arc_get;
use crate::rng::RandomSource;
use std::sync::Arc;
use vstd::prelude::*;

verus! {

/// An assembled model: the shared parameter snapshot and the border
/// stack, indexed border, then row, then column.
#[derive(Debug, Clone)]
pub struct Model3D {
    pub params: Arc<Params3D>,
    pub borders: Vec<Vec<Vec<u32>>>,
}

/// One validated layer that had findings: which layer, and everything
/// the validator reported about it.
#[derive(Debug, Clone)]
pub struct LayerIssue {
    pub layer: usize,
    pub violations: Vec<Violation>,
}

/// The border stack a generation owes its parameters: one layer per
/// configured border, each matching the policy and limits its index
/// selects.
pub open spec fn model_borders_ok(params: Params3D, borders: Seq<Vec<Vec<u32>>>) -> bool {
    &&& borders.len() == (*params.borders_params).number_of_borders as int
    &&& forall|k: int|
        0 <= k < borders.len() ==> layer_matches(
            (#[trigger] borders[k])@,
            (*params.axis_y).blocks_centers@.len() as int,
            (*params.axis_x).blocks_centers@.len() as int,
            layer_policy(*params.borders_params, k),
            layer_limits(*params.borders_params, k),
        )
}

/// A configuration under which every generated layer passes validation:
/// a grid of at least two rows and columns, and every bounded-walk layer
/// generated over a limit range at least two steps wide.
pub open spec fn clean_model_config(params: Params3D) -> bool {
    &&& (*params.axis_y).blocks_centers@.len() >= 2
    &&& (*params.axis_x).blocks_centers@.len() >= 2
    &&& forall|k: int|
        0 <= k < (*params.borders_params).number_of_borders as int ==> match #[trigger] layer_policy(
            *params.borders_params,
            k,
        ) {
            BorderType::Random => true,
            BorderType::RandomWithStep(s, _) => layer_limits(*params.borders_params, k)[0] + 2 * (
            s as int) <= layer_limits(*params.borders_params, k)[1],
        }
}

/// A layer that passes validation has no true finding of any kind.
proof fn lemma_valid_no_violation(
    l: Seq<Vec<u32>>,
    min: u32,
    max: u32,
    step: Option<u16>,
    vi: Violation,
)
    requires
        layer_valid(l, min, max, step),
    ensures
        !violation_holds(l, min, max, step, vi),
{
    match vi {
        Violation::LayerTooSmall => {},
        Violation::OutOfBounds(a, b) => {
            if a < l.len() && b < l[a as int]@.len() {
                assert(min <= l[a as int]@[b as int] <= max);
            }
        },
        Violation::StepViolationLeft(a, b) => {
            if let Some(s) = step {
                if a < l.len() && 1 <= b < l[a as int]@.len() {
                    assert(udiff(l[a as int]@[b as int], l[a as int]@[b as int - 1]) <= s as int);
                }
            }
        },
        Violation::StepViolationUp(a, b) => {
            if let Some(s) = step {
                if 1 <= a < l.len() && b < l[a as int]@.len() && b < l[a as int - 1]@.len() {
                    assert(udiff(l[a as int]@[b as int], l[a as int - 1]@[b as int]) <= s as int);
                }
            }
        },
    }
}

/// A layer generated under a clean configuration passes validation
/// against its own policy's step bound.
proof fn lemma_clean_layer_valid(
    layer: Seq<Vec<u32>>,
    rows: int,
    cols: int,
    policy: BorderType,
    lim: [u32; 2],
)
    requires
        layer_matches(layer, rows, cols, policy, lim),
    ensures
        (rows >= 2 && cols >= 2 && (policy matches BorderType::RandomWithStep(s, _) ==> lim[0] + 2
            * (s as int) <= lim[1])) ==> layer_valid(
            layer,
            lim[0],
            lim[1],
            match policy {
                BorderType::Random => None,
                BorderType::RandomWithStep(s, _) => Some(s),
            },
        ),
{
    if rows >= 2 && cols >= 2 {
        match policy {
            BorderType::Random => {},
            BorderType::RandomWithStep(s, _) => {
                if lim[0] + 2 * (s as int) <= lim[1] {
                    assert(step_bounded_left(layer, s as int));
                    assert(step_bounded_up(layer, s as int));
                }
            },
        }
    }
}

impl Model3D {
    /// Returns the shared parameter snapshot.
    pub fn params(&self) -> (r: &Arc<Params3D>)
        ensures
            *r == self.params,
    {
        &self.params
    }

    /// Returns the border stack, indexed border, then row, then column.
    pub fn borders(&self) -> (r: &Vec<Vec<Vec<u32>>>)
        ensures
            r@ == self.borders@,
    {
        &self.borders
    }
}

/// Generates a model without validating the layers: the borders owed to
/// the parameters, paired with the parameter snapshot.
pub fn generate_model3d(params: Arc<Params3D>, rng: &mut RandomSource) -> (m: Model3D)
    requires
        borders_config_ok(*(*params).borders_params),
    ensures
        m.params == params,
        model_borders_ok(*params, m.borders@),
{
    let borders = generate_borders(arc_get(&params), rng);
    Model3D { params, borders }
}

/// Generates a model and validates every layer against its own limits
/// and step bound. With `abort_on_violation` the first layer with
/// findings aborts the assembly; otherwise every layer is kept and its
/// findings are attached as warnings, one report per layer, a finding in
/// a report exactly when it holds of that layer. Under a clean
/// configuration (grid at least 2 x 2, every walk range at least two
/// steps wide) the assembly always succeeds.
pub fn generate_model3d_validated(
    params: Arc<Params3D>,
    rng: &mut RandomSource,
    abort_on_violation: bool,
) -> (r: Result<(Model3D, Vec<Vec<Violation>>), LayerIssue>)
    requires
        borders_config_ok(*(*params).borders_params),
    ensures
        !abort_on_violation ==> r is Ok,
        abort_on_violation && clean_model_config(*params) ==> r is Ok,
        r matches Ok(t) ==> {
            &&& t.0.params == params
            &&& model_borders_ok(*params, t.0.borders@)
            &&& t.1@.len() == t.0.borders@.len()
            &&& forall|k: int, vi: Violation|
                0 <= k < t.1@.len() ==> ((#[trigger] t.1@[k]@.contains(vi)) <==> violation_holds(
                    t.0.borders@[k]@,
                    layer_limits(*params.borders_params, k)[0],
                    layer_limits(*params.borders_params, k)[1],
                    layer_step(*params.borders_params, k),
                    vi,
                ))
            &&& abort_on_violation ==> forall|k: int|
                0 <= k < t.1@.len() ==> (#[trigger] t.1@[k])@.len() == 0
        },
        r matches Err(e) ==> abort_on_violation && e.violations@.len() > 0,
{
    let borders = generate_borders(arc_get(&params), rng);
    let bp: &crate::borders::BordersParams = arc_get(&params.borders_params);
    let types: &Vec<BorderType> = bp.borders_type();
    let limits_list: &Vec<[u32; 2]> = bp.borders_limits();
    let tcount: usize = types.len();
    let lcount: usize = limits_list.len();
    let rows: usize = arc_get(&params.axis_y).blocks_centers().len();
    let cols: usize = arc_get(&params.axis_x).blocks_centers().len();
    let n: usize = borders.len();
    let mut reports: Vec<Vec<Violation>> = Vec::new();
    let mut k: usize = 0;
    while k < n
        invariant
            borders_config_ok(*params.borders_params),
            model_borders_ok(*params, borders@),
            types@ == (*params.borders_params).borders_type@,
            limits_list@ == (*params.borders_params).borders_limits@,
            tcount == types@.len(),
            lcount == limits_list@.len(),
            tcount > 0,
            lcount > 0,
            rows == (*params.axis_y).blocks_centers@.len(),
            cols == (*params.axis_x).blocks_centers@.len(),
            n == borders@.len(),
            0 <= k <= n,
            reports@.len() == k,
            forall|j: int, vi: Violation|
                0 <= j < k ==> ((#[trigger] reports@[j]@.contains(vi)) <==> violation_holds(
                    borders@[j]@,
                    layer_limits(*params.borders_params, j)[0],
                    layer_limits(*params.borders_params, j)[1],
                    layer_step(*params.borders_params, j),
                    vi,
                )),
            abort_on_violation ==> forall|j: int|
                0 <= j < k ==> (#[trigger] reports@[j])@.len() == 0,
        decreases n - k,
    {
        let lim: [u32; 2] = limits_list[k % lcount];
        let policy: BorderType = types[k % tcount];
        let step_opt: Option<u16> = match policy {
            BorderType::Random => None,
            BorderType::RandomWithStep(s, _) => Some(s),
        };
        proof {
            assert(lim == layer_limits(*params.borders_params, k as int));
            assert(policy == layer_policy(*params.borders_params, k as int));
            assert(step_opt == layer_step(*params.borders_params, k as int));
            assert(layer_matches(
                borders@[k as int]@,
                rows as int,
                cols as int,
                layer_policy(*params.borders_params, k as int),
                layer_limits(*params.borders_params, k as int),
            ));
        }
        let layer_ref: &Vec<Vec<u32>> = &borders[k];
        match validate_layer(layer_ref, lim, step_opt) {
            Ok(()) => {
                let empty: Vec<Violation> = Vec::new();
                proof {
                    assert forall|vi: Violation| #[trigger]
                        empty@.contains(vi) <==> violation_holds(
                            borders@[k as int]@,
                            lim[0],
                            lim[1],
                            step_opt,
                            vi,
                        ) by {
                        lemma_valid_no_violation(borders@[k as int]@, lim[0], lim[1], step_opt, vi);
                        if empty@.contains(vi) {
                            let i = choose|i: int| 0 <= i < empty@.len() && empty@[i] == vi;
                            assert(false);
                        }
                    }
                }
                reports.push(empty);
            },
            Err(v) => {
                if abort_on_violation {
                    proof {
                        lemma_clean_layer_valid(
                            borders@[k as int]@,
                            rows as int,
                            cols as int,
                            policy,
                            lim,
                        );
                        assert(!clean_model_config(*params));
                    }
                    return Err(LayerIssue { layer: k, violations: v });
                }
                reports.push(v);
            },
        }
        k = k + 1;
    }
    Ok((Model3D { params, borders }, reports))
}

} // verus!
