//! The border stack of one model: the per-layer generation driver that
//! resolves each layer's policy and limits by wraparound indexing, the
//! shared grid and step-bound vocabulary, and the validator that checks
//! one generated layer and reports every violation.

use crate::borders::BorderType;
use crate::borders::BordersParams;
use crate::borders::limits_ordered;
use crate::params3d::Params3D;
use crate::params3d::arc_get;
use crate::random;
use crate::random_with_step;
use crate::rng::RandomSource;
use vstd::prelude::*;

verus! {

/// The absolute difference of two cell values, as a mathematical integer.
pub open spec fn udiff(a: u32, b: u32) -> int {
    if a >= b {
        a - b
    } else {
        b - a
    }
}

/// The grid has exactly `rows` rows of exactly `cols` cells each.
pub open spec fn grid_dims(l: Seq<Vec<u32>>, rows: int, cols: int) -> bool {
    &&& l.len() == rows
    &&& forall|y: int| 0 <= y < l.len() ==> (#[trigger] l[y])@.len() == cols
}

/// Every cell value lies in `min..=max`.
pub open spec fn grid_within(l: Seq<Vec<u32>>, min: u32, max: u32) -> bool {
    forall|y: int, x: int|
        0 <= y < l.len() && 0 <= x < l[y]@.len() ==> min <= #[trigger] l[y]@[x] <= max
}

/// Every cell with a left neighbor stays within `step` of it.
pub open spec fn step_bounded_left(l: Seq<Vec<u32>>, step: int) -> bool {
    forall|y: int, x: int|
        0 <= y < l.len() && 1 <= x < l[y]@.len() ==> #[trigger] udiff(l[y]@[x], l[y]@[x - 1])
            <= step
}

/// Every cell with an upper neighbor stays within `step` of it.
pub open spec fn step_bounded_up(l: Seq<Vec<u32>>, step: int) -> bool {
    forall|y: int, x: int|
        1 <= y < l.len() && 0 <= x < l[y]@.len() && x < l[y - 1]@.len() ==> #[trigger] udiff(
            l[y]@[x],
            l[y - 1]@[x],
        ) <= step
}

/// Every interior cell (one with both a left and an upper neighbor)
/// stays within `step` of both.
pub open spec fn step_bounded_interior(l: Seq<Vec<u32>>, step: int) -> bool {
    forall|y: int, x: int|
        1 <= y < l.len() && 1 <= x < l[y]@.len() && x < l[y - 1]@.len() ==> #[trigger] udiff(
            l[y]@[x],
            l[y]@[x - 1],
        ) <= step && udiff(l[y]@[x], l[y - 1]@[x]) <= step
}

/// The limit pair layer `k` is generated against: entry `k` modulo the
/// length of the limits list.
pub open spec fn layer_limits(bp: BordersParams, k: int) -> [u32; 2] {
    bp.borders_limits@[k % bp.borders_limits@.len() as int]
}

/// The policy layer `k` is generated with: entry `k` modulo the length
/// of the type list.
pub open spec fn layer_policy(bp: BordersParams, k: int) -> BorderType {
    bp.borders_type@[k % bp.borders_type@.len() as int]
}

/// The step bound that applies to layer `k` under its policy, if any.
pub open spec fn layer_step(bp: BordersParams, k: int) -> Option<u16> {
    match layer_policy(bp, k) {
        BorderType::Random => None,
        BorderType::RandomWithStep(s, _) => Some(s),
    }
}

/// What generation guarantees of one layer: the grid shape, cells within
/// the layer's limits, and under the bounded-walk policy the step bounds
/// of the walk (interior cells always; first row and column whenever the
/// limit range is at least two steps wide).
pub open spec fn layer_matches(
    layer: Seq<Vec<u32>>,
    rows: int,
    cols: int,
    policy: BorderType,
    lim: [u32; 2],
) -> bool {
    &&& grid_dims(layer, rows, cols)
    &&& grid_within(layer, lim[0], lim[1])
    &&& (policy matches BorderType::RandomWithStep(s, _) ==> step_bounded_interior(
        layer,
        s as int,
    ) && (lim[0] + 2 * (s as int) <= lim[1] ==> step_bounded_left(layer, s as int)
        && step_bounded_up(layer, s as int)))
}

/// The borders configuration can drive a generation: at least one entry
/// in each wraparound list, and every limit pair ordered.
pub open spec fn borders_config_ok(bp: BordersParams) -> bool {
    &&& bp.borders_type@.len() > 0
    &&& bp.borders_limits@.len() > 0
    &&& limits_ordered(bp.borders_limits@)
}

/// Generates the whole border stack of a model: one layer per configured
/// border, each against the policy and limit pair its index selects with
/// wraparound reuse of the configured lists.
pub fn generate_borders(params: &Params3D, rng: &mut RandomSource) -> (borders: Vec<Vec<Vec<u32>>>)
    requires
        borders_config_ok(*params.borders_params),
    ensures
        borders@.len() == (*params.borders_params).number_of_borders as int,
        forall|k: int|
            0 <= k < borders@.len() ==> layer_matches(
                (#[trigger] borders@[k])@,
                (*params.axis_y).blocks_centers@.len() as int,
                (*params.axis_x).blocks_centers@.len() as int,
                layer_policy(*params.borders_params, k),
                layer_limits(*params.borders_params, k),
            ),
{
    let bp: &BordersParams = arc_get(&params.borders_params);
    let rows: usize = arc_get(&params.axis_y).blocks_centers().len();
    let cols: usize = arc_get(&params.axis_x).blocks_centers().len();
    let n: usize = bp.number_of_borders() as usize;
    let types: &Vec<BorderType> = bp.borders_type();
    let limits_list: &Vec<[u32; 2]> = bp.borders_limits();
    let tcount: usize = types.len();
    let lcount: usize = limits_list.len();
    let mut borders: Vec<Vec<Vec<u32>>> = Vec::new();
    let mut k: usize = 0;
    while k < n
        invariant
            0 <= k <= n,
            tcount == types@.len(),
            lcount == limits_list@.len(),
            tcount > 0,
            lcount > 0,
            types@ == (*params.borders_params).borders_type@,
            limits_list@ == (*params.borders_params).borders_limits@,
            limits_ordered(limits_list@),
            rows == (*params.axis_y).blocks_centers@.len(),
            cols == (*params.axis_x).blocks_centers@.len(),
            borders@.len() == k,
            forall|j: int|
                0 <= j < k ==> layer_matches(
                    (#[trigger] borders@[j])@,
                    rows as int,
                    cols as int,
                    layer_policy(*params.borders_params, j),
                    layer_limits(*params.borders_params, j),
                ),
        decreases n - k,
    {
        let lim: [u32; 2] = limits_list[k % lcount];
        let policy: BorderType = types[k % tcount];
        proof {
            assert(lim[0] <= lim[1]);
        }
        let layer: Vec<Vec<u32>> = match policy {
            BorderType::Random => random::generate_layer(rng, (rows, cols), lim),
            BorderType::RandomWithStep(s, p) => random_with_step::generate_layer(
                rng,
                s,
                p,
                (rows, cols),
                lim,
            ),
        };
        borders.push(layer);
        k = k + 1;
    }
    borders
}

/// One finding of the layer validator, naming the offending cell where
/// there is one.
#[derive(Debug, Clone, Copy, PartialEq, Eq, Structural)]
pub enum Violation {
    LayerTooSmall,
    OutOfBounds(usize, usize),
    StepViolationLeft(usize, usize),
    StepViolationUp(usize, usize),
}

/// Whether a finding really holds of the layer. A layer under two rows
/// or two columns is rejected as too small before any cell is read, so
/// in that case the only finding is `LayerTooSmall`.
pub open spec fn violation_holds(
    l: Seq<Vec<u32>>,
    min: u32,
    max: u32,
    step: Option<u16>,
    vi: Violation,
) -> bool {
    if l.len() < 2 || l[0]@.len() < 2 {
        vi == Violation::LayerTooSmall
    } else {
        match vi {
            Violation::LayerTooSmall => false,
            Violation::OutOfBounds(y, x) => {
                let yy = y as int;
                let xx = x as int;
                y < l.len() && x < l[yy]@.len() && !(min <= l[yy]@[xx] <= max)
            },
            Violation::StepViolationLeft(y, x) => {
                let yy = y as int;
                let xx = x as int;
                step matches Some(s) && y < l.len() && 1 <= x < l[yy]@.len() && udiff(
                    l[yy]@[xx],
                    l[yy]@[xx - 1],
                ) > s
            },
            Violation::StepViolationUp(y, x) => {
                let yy = y as int;
                let xx = x as int;
                step matches Some(s) && 1 <= y < l.len() && x < l[yy]@.len() && x < l[yy
                    - 1]@.len() && udiff(l[yy]@[xx], l[yy - 1]@[xx]) > s
            },
        }
    }
}

/// A layer that passes validation: at least two rows and columns, every
/// cell within the limits, and, when a step bound is given, every cell
/// within that step of its left and upper neighbors.
pub open spec fn layer_valid(l: Seq<Vec<u32>>, min: u32, max: u32, step: Option<u16>) -> bool {
    &&& l.len() >= 2
    &&& l[0]@.len() >= 2
    &&& grid_within(l, min, max)
    &&& (step matches Some(s) ==> step_bounded_left(l, s as int) && step_bounded_up(l, s as int))
}

/// The violations found up to, but not including, the scan position
/// `(y, x)` of a row-major cell scan.
spec fn scanned_before(vi: Violation, y: int, x: int) -> bool {
    match vi {
        Violation::LayerTooSmall => false,
        Violation::OutOfBounds(a, b) => a < y || (a == y && b < x),
        Violation::StepViolationLeft(a, b) => a < y || (a == y && b < x),
        Violation::StepViolationUp(a, b) => a < y || (a == y && b < x),
    }
}

/// Pushing onto a sequence adds exactly the pushed element to what the
/// sequence contains.
proof fn lemma_push_contains<A>(s: Seq<A>, e: A, x: A)
    ensures
        s.push(e).contains(x) <==> (s.contains(x) || x == e),
{
    if s.contains(x) {
        let i = choose|i: int| 0 <= i < s.len() && s[i] == x;
        assert(s.push(e)[i] == x);
    }
    assert(s.push(e)[s.len() as int] == e);
    if s.push(e).contains(x) && x != e {
        let i = choose|i: int| 0 <= i < s.push(e).len() && s.push(e)[i] == x;
        assert(s[i] == x);
    }
}

/// Checks one layer against its `[min, max]` limits and, when given, a
/// step bound, and reports every violation: a finding is in the returned
/// list exactly when it holds of the layer. The rows must all have the
/// width of the first one.
pub fn validate_layer(
    border_to_check: &Vec<Vec<u32>>,
    limits: [u32; 2],
    step: Option<u16>,
) -> (r: Result<(), Vec<Violation>>)
    requires
        forall|y: int|
            0 <= y < border_to_check@.len() ==> (#[trigger] border_to_check@[y])@.len()
                == border_to_check@[0]@.len(),
    ensures
        r is Ok <==> layer_valid(border_to_check@, limits[0], limits[1], step),
        r matches Err(v) ==> v@.len() > 0 && (forall|vi: Violation| #[trigger]
            v@.contains(vi) <==> violation_holds(
                border_to_check@,
                limits[0],
                limits[1],
                step,
                vi,
            )),
{
    let l = border_to_check;
    let rows = l.len();
    if rows < 2 || l[0].len() < 2 {
        let mut v: Vec<Violation> = Vec::new();
        v.push(Violation::LayerTooSmall);
        proof {
            assert forall|vi: Violation| #[trigger]
                v@.contains(vi) <==> violation_holds(l@, limits[0], limits[1], step, vi) by {
                assert(v@[0] == Violation::LayerTooSmall);
                if vi == Violation::LayerTooSmall {
                    assert(v@.contains(vi));
                } else {
                    if v@.contains(vi) {
                        let i = choose|i: int| 0 <= i < v@.len() && v@[i] == vi;
                        assert(false);
                    }
                }
            }
        }
        return Err(v);
    }
    let cols = l[0].len();
    let mn = limits[0];
    let mx = limits[1];
    let mut out: Vec<Violation> = Vec::new();
    let mut y: usize = 0;
    while y < rows
        invariant
            rows == l@.len(),
            2 <= rows,
            2 <= cols,
            mn == limits[0],
            mx == limits[1],
            forall|j: int| 0 <= j < l@.len() ==> (#[trigger] l@[j])@.len() == cols,
            0 <= y <= rows,
            forall|vi: Violation| #[trigger]
                out@.contains(vi) <==> violation_holds(l@, mn, mx, step, vi) && scanned_before(
                    vi,
                    y as int,
                    0,
                ),
        decreases rows - y,
    {
        let mut x: usize = 0;
        while x < cols
            invariant
                rows == l@.len(),
                2 <= rows,
                2 <= cols,
                mn == limits[0],
                mx == limits[1],
                forall|j: int| 0 <= j < l@.len() ==> (#[trigger] l@[j])@.len() == cols,
                0 <= y < rows,
                0 <= x <= cols,
                forall|vi: Violation| #[trigger]
                    out@.contains(vi) <==> violation_holds(l@, mn, mx, step, vi)
                        && scanned_before(vi, y as int, x as int),
            decreases cols - x,
        {
            let row_ref: &Vec<u32> = &l[y];
            let val: u32 = row_ref[x];
            let ghost pre0 = out@;
            if val < mn || val > mx {
                out.push(Violation::OutOfBounds(y, x));
            }
            proof {
                assert forall|vi: Violation| #[trigger]
                    out@.contains(vi) <==> pre0.contains(vi) || (vi == Violation::OutOfBounds(
                        y,
                        x,
                    ) && violation_holds(l@, mn, mx, step, vi)) by {
                    lemma_push_contains(pre0, Violation::OutOfBounds(y, x), vi);
                }
            }
            let ghost pre1 = out@;
            match step {
                Some(s) => {
                    if x > 0 {
                        let left: u32 = row_ref[x - 1];
                        let d: u32 = if val >= left {
                            val - left
                        } else {
                            left - val
                        };
                        if d > s as u32 {
                            out.push(Violation::StepViolationLeft(y, x));
                        }
                    }
                    proof {
                        assert forall|vi: Violation| #[trigger]
                            out@.contains(vi) <==> pre1.contains(vi) || (vi
                                == Violation::StepViolationLeft(y, x) && violation_holds(
                                l@,
                                mn,
                                mx,
                                step,
                                vi,
                            )) by {
                            lemma_push_contains(pre1, Violation::StepViolationLeft(y, x), vi);
                        }
                    }
                    let ghost pre2 = out@;
                    if y > 0 {
                        let up_row: &Vec<u32> = &l[y - 1];
                        let up: u32 = up_row[x];
                        let d: u32 = if val >= up {
                            val - up
                        } else {
                            up - val
                        };
                        if d > s as u32 {
                            out.push(Violation::StepViolationUp(y, x));
                        }
                    }
                    proof {
                        assert forall|vi: Violation| #[trigger]
                            out@.contains(vi) <==> pre2.contains(vi) || (vi
                                == Violation::StepViolationUp(y, x) && violation_holds(
                                l@,
                                mn,
                                mx,
                                step,
                                vi,
                            )) by {
                            lemma_push_contains(pre2, Violation::StepViolationUp(y, x), vi);
                        }
                    }
                },
                None => {},
            }
            proof {
                assert forall|vi: Violation| #[trigger]
                    out@.contains(vi) <==> violation_holds(l@, mn, mx, step, vi)
                        && scanned_before(vi, y as int, x as int + 1) by {}
            }
            x = x + 1;
        }
        y = y + 1;
    }
    if out.len() == 0 {
        proof {
            assert forall|yy: int, xx: int|
                0 <= yy < l@.len() && 0 <= xx < l@[yy]@.len() implies mn <= #[trigger] l@[yy]@[xx]
                <= mx by {
                if !(mn <= l@[yy]@[xx] <= mx) {
                    let vi = Violation::OutOfBounds(yy as usize, xx as usize);
                    assert(violation_holds(l@, mn, mx, step, vi));
                    assert(out@.contains(vi));
                }
            }
            if let Some(s) = step {
                assert forall|yy: int, xx: int|
                    0 <= yy < l@.len() && 1 <= xx < l@[yy]@.len() implies #[trigger] udiff(
                    l@[yy]@[xx],
                    l@[yy]@[xx - 1],
                ) <= s as int by {
                    if udiff(l@[yy]@[xx], l@[yy]@[xx - 1]) > s as int {
                        let vi = Violation::StepViolationLeft(yy as usize, xx as usize);
                        assert(violation_holds(l@, mn, mx, step, vi));
                        assert(out@.contains(vi));
                    }
                }
                assert forall|yy: int, xx: int|
                    1 <= yy < l@.len() && 0 <= xx < l@[yy]@.len() && xx < l@[yy
                    - 1]@.len() implies #[trigger] udiff(l@[yy]@[xx], l@[yy - 1]@[xx])
                    <= s as int by {
                    if udiff(l@[yy]@[xx], l@[yy - 1]@[xx]) > s as int {
                        let vi = Violation::StepViolationUp(yy as usize, xx as usize);
                        assert(violation_holds(l@, mn, mx, step, vi));
                        assert(out@.contains(vi));
                    }
                }
            }
        }
        Ok(())
    } else {
        proof {
            let vi0 = out@[0];
            assert(out@.contains(vi0));
            assert(violation_holds(l@, mn, mx, step, vi0));
            assert(!layer_valid(l@, mn, mx, step)) by {
                match vi0 {
                    Violation::LayerTooSmall => {},
                    Violation::OutOfBounds(a, b) => {},
                    Violation::StepViolationLeft(a, b) => {},
                    Violation::StepViolationUp(a, b) => {},
                }
            }
        }
        Err(out)
    }
}

} // verus!
