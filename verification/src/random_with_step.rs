//! The bounded-random-walk border policy: the first cell is drawn freely
//! from the limits, every later cell within `step` of its already
//! generated neighbors, the sampling window widened toward the opposite
//! bound near a limit so that the walk never degenerates into clamping.

use crate::borders3d::grid_dims;
use crate::borders3d::grid_within;
use crate::borders3d::step_bounded_interior;
use crate::borders3d::step_bounded_left;
use crate::borders3d::step_bounded_up;
use crate::borders3d::udiff;
use crate::rng::RandomSource;
use vstd::prelude::*;

verus! {

/// Draws the next walk value from one prior value `prev`: within `step`
/// of it where the limits leave room, from the whole limit range where
/// they do not (a range narrower than two steps around `prev`). The draw
/// always stays within the limits, within `step` of `prev` whenever the
/// range is at least two steps wide, and within two steps of `prev`
/// always.
fn step_next(rng: &mut RandomSource, prev: u32, min: u32, max: u32, step: u32) -> (r: u32)
    requires
        min <= prev <= max,
    ensures
        min <= r <= max,
        udiff(r, prev) <= 2 * step,
        min + 2 * step <= max ==> udiff(r, prev) <= step,
{
    let p: u64 = prev as u64;
    let mn: u64 = min as u64;
    let mx: u64 = max as u64;
    let st: u64 = step as u64;
    let near_min: bool = p < mn + st;
    let near_max: bool = p + st > mx;
    let r64: u64 = if near_min && near_max {
        rng.sample_inclusive(mn, mx)
    } else if near_min {
        rng.sample_inclusive(mn, p + st)
    } else if near_max {
        rng.sample_inclusive(p - st, mx)
    } else {
        rng.sample_inclusive(p - st, p + st)
    };
    r64 as u32
}

/// Draws an interior walk value jointly bounded by the cell's left and
/// upper neighbors, which themselves differ by at most two steps: the
/// window runs from one step under the larger neighbor to one step over
/// the smaller one, each side relaxed to the global bound where the
/// window would leave the limits. The draw stays within the limits and
/// within `step` of both neighbors.
fn step_next2(rng: &mut RandomSource, left: u32, up: u32, min: u32, max: u32, step: u32) -> (r: u32)
    requires
        min <= left <= max,
        min <= up <= max,
        udiff(up, left) <= 2 * step,
    ensures
        min <= r <= max,
        udiff(r, left) <= step,
        udiff(r, up) <= step,
{
    let mn: u64 = min as u64;
    let mx: u64 = max as u64;
    let st: u64 = step as u64;
    let lo_v: u64 = if up >= left {
        left as u64
    } else {
        up as u64
    };
    let hi_v: u64 = if up >= left {
        up as u64
    } else {
        left as u64
    };
    let upper_window: u64 = if lo_v + st > mx {
        mx
    } else {
        lo_v + st
    };
    let lower_window: u64 = if hi_v < mn + st {
        mn
    } else {
        hi_v - st
    };
    let r64: u64 = rng.sample_inclusive(lower_window, upper_window);
    r64 as u32
}

/// Walks one row of `cols` cells. Without a previous row this is the
/// first row: its first cell is uniform in the limits, the rest walk
/// from their left neighbor. Under a previous row, the first cell walks
/// from the cell above and the rest are jointly bounded by their left
/// and upper neighbors.
fn walk_row(
    rng: &mut RandomSource,
    prev: Option<&Vec<u32>>,
    cols: usize,
    min: u32,
    max: u32,
    step: u32,
) -> (row: Vec<u32>)
    requires
        min <= max,
        prev matches Some(p) ==> {
            &&& p@.len() == cols
            &&& forall|i: int| 0 <= i < cols ==> min <= #[trigger] p@[i] <= max
            &&& min + 2 * step <= max ==> forall|i: int|
                1 <= i < cols ==> #[trigger] udiff(p@[i], p@[i - 1]) <= step
        },
    ensures
        row@.len() == cols,
        forall|i: int| 0 <= i < cols ==> min <= #[trigger] row@[i] <= max,
        min + 2 * step <= max ==> forall|i: int|
            1 <= i < cols ==> #[trigger] udiff(row@[i], row@[i - 1]) <= step,
        prev matches Some(p) ==> {
            &&& forall|i: int|
                #![trigger udiff(row@[i], row@[i - 1])]
                #![trigger udiff(row@[i], p@[i])]
                1 <= i < cols ==> udiff(row@[i], row@[i - 1]) <= step && udiff(row@[i], p@[i])
                    <= step
            &&& cols > 0 ==> udiff(row@[0], p@[0]) <= 2 * step
            &&& (cols > 0 && min + 2 * step <= max) ==> udiff(row@[0], p@[0]) <= step
        },
{
    let mut row: Vec<u32> = Vec::new();
    if cols == 0 {
        return row;
    }
    let first: u32 = match prev {
        Some(p) => step_next(rng, p[0], min, max, step),
        None => rng.sample_inclusive(min as u64, max as u64) as u32,
    };
    row.push(first);
    let mut x: usize = 1;
    while x < cols
        invariant
            1 <= x <= cols,
            min <= max,
            prev matches Some(p) ==> {
                &&& p@.len() == cols
                &&& forall|i: int| 0 <= i < cols ==> min <= #[trigger] p@[i] <= max
                &&& min + 2 * step <= max ==> forall|i: int|
                    1 <= i < cols ==> #[trigger] udiff(p@[i], p@[i - 1]) <= step
            },
            row@.len() == x,
            forall|i: int| 0 <= i < x ==> min <= #[trigger] row@[i] <= max,
            min + 2 * step <= max ==> forall|i: int|
                1 <= i < x ==> #[trigger] udiff(row@[i], row@[i - 1]) <= step,
            prev matches Some(p) ==> {
                &&& forall|i: int|
                    #![trigger udiff(row@[i], row@[i - 1])]
                    #![trigger udiff(row@[i], p@[i])]
                    1 <= i < x ==> udiff(row@[i], row@[i - 1]) <= step && udiff(row@[i], p@[i])
                        <= step
                &&& udiff(row@[0], p@[0]) <= 2 * step
                &&& min + 2 * step <= max ==> udiff(row@[0], p@[0]) <= step
            },
        decreases cols - x,
    {
        let v: u32 = match prev {
            Some(p) => {
                let left: u32 = row[x - 1];
                let up: u32 = p[x];
                proof {
                    if min + 2 * step <= max {
                        if x == 1 {
                            assert(udiff(row@[0], p@[0]) <= step);
                        } else {
                            assert(udiff(row@[x as int - 1], p@[x as int - 1]) <= step);
                        }
                        assert(udiff(p@[x as int], p@[x as int - 1]) <= step);
                    }
                }
                step_next2(rng, left, up, min, max, step)
            },
            None => {
                let prev_cell: u32 = row[x - 1];
                step_next(rng, prev_cell, min, max, step)
            },
        };
        row.push(v);
        x = x + 1;
    }
    row
}

/// Generates one `axes_sizes.0 x axes_sizes.1` layer by a bounded random
/// walk over the inclusive limit range. The `_probability` knob is
/// reserved configuration; no generation rule consults it.
///
/// Every cell lies within the limits; every interior cell differs from
/// its left and upper neighbors by at most `step`; and when the limit
/// range is at least two steps wide, the first row and first column obey
/// the step bound as well.
pub fn generate_layer(
    rng: &mut RandomSource,
    step: u16,
    _probability: u32,
    axes_sizes: (usize, usize),
    limits: [u32; 2],
) -> (l: Vec<Vec<u32>>)
    requires
        limits[0] <= limits[1],
    ensures
        grid_dims(l@, axes_sizes.0 as int, axes_sizes.1 as int),
        grid_within(l@, limits[0], limits[1]),
        step_bounded_interior(l@, step as int),
        limits[0] + 2 * (step as int) <= limits[1] ==> step_bounded_left(l@, step as int)
            && step_bounded_up(l@, step as int),
{
    let (rows, cols) = axes_sizes;
    let mn: u32 = limits[0];
    let mx: u32 = limits[1];
    let stp: u32 = step as u32;
    let mut layer: Vec<Vec<u32>> = Vec::new();
    let mut y: usize = 0;
    while y < rows
        invariant
            0 <= y <= rows,
            mn == limits[0],
            mx == limits[1],
            mn <= mx,
            stp as int == step as int,
            layer@.len() == y,
            forall|j: int| 0 <= j < y ==> (#[trigger] layer@[j])@.len() == cols,
            grid_within(layer@, mn, mx),
            step_bounded_interior(layer@, stp as int),
            mn + 2 * (stp as int) <= mx ==> step_bounded_left(layer@, stp as int)
                && step_bounded_up(layer@, stp as int),
        decreases rows - y,
    {
        let row: Vec<u32> = if y == 0 {
            walk_row(rng, None, cols, mn, mx, stp)
        } else {
            let prev_row: &Vec<u32> = &layer[y - 1];
            walk_row(rng, Some(prev_row), cols, mn, mx, stp)
        };
        proof {
            let stpi = stp as int;
            let nl = layer@.push(row);
            assert forall|yy: int, xx: int|
                0 <= yy < nl.len() && 0 <= xx < nl[yy]@.len() implies mn <= #[trigger] nl[yy]@[xx]
                <= mx by {
                if yy < y {
                    assert(mn <= layer@[yy]@[xx] <= mx);
                }
            }
            assert forall|yy: int, xx: int|
                1 <= yy < nl.len() && 1 <= xx < nl[yy]@.len() && xx < nl[yy - 1]@.len() implies (
            #[trigger] udiff(nl[yy]@[xx], nl[yy]@[xx - 1]) <= stpi && udiff(
                nl[yy]@[xx],
                nl[yy - 1]@[xx],
            ) <= stpi) by {
                if yy < y {
                    assert(udiff(layer@[yy]@[xx], layer@[yy]@[xx - 1]) <= stpi && udiff(
                        layer@[yy]@[xx],
                        layer@[yy - 1]@[xx],
                    ) <= stpi);
                }
            }
            if mn + 2 * stpi <= mx {
                assert forall|yy: int, xx: int|
                    0 <= yy < nl.len() && 1 <= xx < nl[yy]@.len() implies #[trigger] udiff(
                    nl[yy]@[xx],
                    nl[yy]@[xx - 1],
                ) <= stpi by {
                    if yy < y {
                        assert(udiff(layer@[yy]@[xx], layer@[yy]@[xx - 1]) <= stpi);
                    }
                }
                assert forall|yy: int, xx: int|
                    1 <= yy < nl.len() && 0 <= xx < nl[yy]@.len() && xx < nl[yy
                    - 1]@.len() implies #[trigger] udiff(nl[yy]@[xx], nl[yy - 1]@[xx]) <= stpi by {
                    if yy < y {
                        assert(udiff(layer@[yy]@[xx], layer@[yy - 1]@[xx]) <= stpi);
                    }
                }
            }
        }
        layer.push(row);
        y = y + 1;
    }
    layer
}

} // verus!
