//! The independent-uniform border policy: every cell of the layer is
//! drawn on its own from the inclusive limit range.

use crate::borders3d::grid_dims;
use crate::borders3d::grid_within;
use crate::rng::RandomSource;
use vstd::prelude::*;

verus! {

/// Generates one `axes_sizes.0 x axes_sizes.1` layer (rows, then
/// columns), every cell drawn uniformly from `limits[0]..=limits[1]`.
pub fn generate_layer(rng: &mut RandomSource, axes_sizes: (usize, usize), limits: [u32; 2]) -> (l:
    Vec<Vec<u32>>)
    requires
        limits[0] <= limits[1],
    ensures
        grid_dims(l@, axes_sizes.0 as int, axes_sizes.1 as int),
        grid_within(l@, limits[0], limits[1]),
{
    let (rows, cols) = axes_sizes;
    let mn: u64 = limits[0] as u64;
    let mx: u64 = limits[1] as u64;
    let mut layer: Vec<Vec<u32>> = Vec::new();
    let mut y: usize = 0;
    while y < rows
        invariant
            0 <= y <= rows,
            mn == limits[0] as int,
            mx == limits[1] as int,
            mn <= mx,
            layer@.len() == y,
            forall|j: int| 0 <= j < y ==> (#[trigger] layer@[j])@.len() == cols,
            grid_within(layer@, limits[0], limits[1]),
        decreases rows - y,
    {
        let mut row: Vec<u32> = Vec::new();
        let mut x: usize = 0;
        while x < cols
            invariant
                0 <= x <= cols,
                mn == limits[0] as int,
                mx == limits[1] as int,
                mn <= mx,
                row@.len() == x,
                forall|i: int| 0 <= i < x ==> limits[0] <= #[trigger] row@[i] <= limits[1],
            decreases cols - x,
        {
            let v = rng.sample_inclusive(mn, mx);
            row.push(v as u32);
            x = x + 1;
        }
        layer.push(row);
        y = y + 1;
    }
    layer
}

} // verus!
