//! One-dimensional discretized axes: ordered block edges and block centers.
//!
//! Coordinates are fixed-point integers counting ticks of 0.0005 units, so
//! that the three-decimal rounding rule of the builders is exact integer
//! arithmetic: rounding to a whole milli (0.001, two ticks) means rounding
//! an odd tick count to an even one, ties going away from zero. Builder
//! inputs are whole-milli values (thousandths of a unit), already rounded
//! to three decimals by the caller; stored edges and centers are ticks.

use vstd::arithmetic::mul::lemma_mul_inequality;
use vstd::prelude::*;

verus! {

/// Everything an axis builder can reject about its input.
#[derive(Debug, Clone, Copy, PartialEq, Eq, Structural)]
pub enum AxisError {
    InvalidRange,
    TooSmallStep,
    NotOrderedVec,
    TooSmallVec,
    MinimalStep,
    NotEnoughElements,
}

impl AxisError {
    /// A human-readable diagnosis of the rejection.
    pub fn message(&self) -> (r: &'static str)
        ensures
            *self is InvalidRange ==> r@ == "End's value must be bigger than start's ones"@,
            *self is TooSmallStep ==> r@ == "Step value is can't be smaller than 0.001"@,
            *self is NotOrderedVec ==> r@ == "Values in input Vec must constanly increase"@,
            *self is TooSmallVec ==> r@ == "Input vector must contain at least 2 elements"@,
            *self is MinimalStep ==> r@ == "Minimal step for input vec must be at least 0.002"@,
            *self is NotEnoughElements ==> r@
                == "Every generated axis must have at least two elements"@,
    {
        match self {
            AxisError::InvalidRange => "End's value must be bigger than start's ones",
            AxisError::TooSmallStep => "Step value is can't be smaller than 0.001",
            AxisError::NotOrderedVec => "Values in input Vec must constanly increase",
            AxisError::TooSmallVec => "Input vector must contain at least 2 elements",
            AxisError::MinimalStep => "Minimal step for input vec must be at least 0.002",
            AxisError::NotEnoughElements => "Every generated axis must have at least two elements",
        }
    }
}

/// A discretized 1-D coordinate range. `blocks_edges` are the borders
/// between blocks, `blocks_centers` the block midpoints, both in ticks of
/// 0.0005 units; `step`, when present, is also in ticks.
#[derive(Debug, Clone)]
pub struct Axis {
    pub start: i64,
    pub end: i64,
    pub step: Option<i64>,
    pub blocks_count: usize,
    pub blocks_centers: Vec<i64>,
    pub blocks_edges: Vec<i64>,
}

/// Bound on the milli values accepted by the builders (one billion
/// coordinate units either way); it keeps every tick computation far away
/// from `i64` overflow.
pub open spec fn milli_in_range(m: int) -> bool {
    -1_000_000_000_000 <= m <= 1_000_000_000_000
}

/// Rounding a tick count to a whole milli: even ticks are exact, odd ticks
/// are halfway between two millis and move away from zero.
pub open spec fn round_milli(t: int) -> int {
    if t % 2 == 0 {
        t
    } else if t > 0 {
        t + 1
    } else {
        t - 1
    }
}

/// The value `i` steps along a generated run: start at `first` and
/// repeatedly add `step_t` ticks, re-rounding to a whole milli after every
/// addition (the re-rounding is part of the construction rule, applied to
/// the running value itself and not only at output).
pub open spec fn run_at(first: int, step_t: int, i: nat) -> int
    decreases i,
{
    if i == 0 {
        first
    } else {
        round_milli(run_at(first, step_t, (i - 1) as nat) + step_t)
    }
}

/// The effective generation step in millis: an absent step means one whole
/// unit.
pub open spec fn eff_step_of(step: Option<i64>) -> int {
    match step {
        Some(s) => s as int,
        None => 1000,
    }
}

/// How many values a range generation produces: one value per whole step
/// that fits in the range, plus the starting value.
pub open spec fn gen_count(start: int, end: int, step: int) -> int {
    (end - start) / step + 1
}

/// Machine limit: the generated values must be countable by `usize` on any
/// architecture.
pub open spec fn gen_count_fits(start: int, end: int, step: int) -> bool {
    (start < end && step >= 1) ==> gen_count(start, end, step) <= 0xffff_fffe
}

/// The first flaw, scanning pairs of adjacent input points from position
/// `i` on: a non-increase is an ordering flaw, a gap of a single milli is a
/// minimal-step flaw (it would collapse under further rounding).
pub open spec fn point_flaw(p: Seq<i64>, i: int) -> Option<AxisError>
    decreases p.len() - i,
{
    if i < 1 || i >= p.len() {
        None
    } else if p[i] <= p[i - 1] {
        Some(AxisError::NotOrderedVec)
    } else if p[i] - p[i - 1] < 2 {
        Some(AxisError::MinimalStep)
    } else {
        point_flaw(p, i + 1)
    }
}

/// All adjacent gaps from position `i` on are at least two millis.
pub open spec fn points_spread(p: Seq<i64>, i: int) -> bool {
    forall|j: int| i <= j < p.len() ==> #[trigger] p[j] - p[j - 1] >= 2
}

/// Centers derived from explicit edge points (in millis): the midpoint of
/// each adjacent pair, rounded to a whole milli. In ticks the midpoint of
/// `2*a` and `2*b` is exactly `a + b`.
pub open spec fn centers_of_edge_points(p: Seq<i64>, i: int) -> int {
    round_milli(p[i] + p[i + 1])
}

/// Edges derived from explicit center points (in millis): interior edges
/// are rounded midpoints, the outermost edges mirror the first and last
/// interior gap outward.
pub open spec fn edges_of_center_points(p: Seq<i64>, i: int) -> int {
    if i == 0 {
        round_milli(3 * p[0] - p[1])
    } else if i < p.len() {
        round_milli(p[i - 1] + p[i])
    } else {
        round_milli(3 * p[p.len() - 1] - p[p.len() - 2])
    }
}

impl Axis {
    /// Structural soundness of a built axis: one more edge than centers,
    /// edges strictly ascending, every center inside its block, `start`
    /// and `end` the outermost edges.
    pub open spec fn well_formed(self) -> bool {
        &&& self.blocks_count >= 1
        &&& self.blocks_edges@.len() == self.blocks_count as int + 1
        &&& self.blocks_centers@.len() == self.blocks_count as int
        &&& forall|i: int|
            0 <= i < self.blocks_count ==> #[trigger] self.blocks_edges@[i]
                < self.blocks_edges@[i + 1]
        &&& forall|i: int|
            0 <= i < self.blocks_count ==> self.blocks_edges@[i] <= #[trigger] self
                .blocks_centers@[i] <= self.blocks_edges@[i + 1]
        &&& self.start == self.blocks_edges@[0]
        &&& self.end == self.blocks_edges@[self.blocks_count as int]
        &&& match self.step {
            Some(s) => s >= 2 && s % 2 == 0,
            None => true,
        }
    }
}

/// Rounding lands on a whole milli and moves the value by at most one tick.
pub proof fn lemma_round_milli(t: int)
    ensures
        round_milli(t) % 2 == 0,
        t - 1 <= round_milli(t) <= t + 1,
        t % 2 == 0 ==> round_milli(t) == t,
{
}

/// The sum of two even tick counts is even.
proof fn lemma_even_sum(a: int, b: int)
    requires
        a % 2 == 0,
        b % 2 == 0,
    ensures
        (a + b) % 2 == 0,
{
    let x = a / 2;
    let y = b / 2;
    vstd::arithmetic::div_mod::lemma_fundamental_div_mod(a, 2);
    vstd::arithmetic::div_mod::lemma_fundamental_div_mod(b, 2);
    assert(a + b == (x + y) * 2);
    vstd::arithmetic::div_mod::lemma_mod_multiples_basic(x + y, 2);
}

/// A run taken with an even (whole-milli) step only ever rounds once: the
/// first addition can land on an odd tick, every later value is even, so
/// from the second element on the run is an exact arithmetic progression.
pub proof fn lemma_run_closed_form(first: int, step_t: int, i: nat)
    requires
        step_t % 2 == 0,
        i >= 1,
    ensures
        run_at(first, step_t, i) == round_milli(first + step_t) + (i - 1) * step_t,
        run_at(first, step_t, i) % 2 == 0,
    decreases i,
{
    assert(run_at(first, step_t, i) == round_milli(
        run_at(first, step_t, (i - 1) as nat) + step_t,
    ));
    if i == 1 {
        assert(run_at(first, step_t, 0) == first);
        lemma_round_milli(first + step_t);
    } else {
        lemma_run_closed_form(first, step_t, (i - 1) as nat);
        lemma_even_sum(run_at(first, step_t, (i - 1) as nat), step_t);
        lemma_round_milli(run_at(first, step_t, (i - 1) as nat) + step_t);
        assert((i - 2) * step_t + step_t == (i - 1) * step_t) by (nonlinear_arith);
    }
}

/// An even start makes the whole run exact: no addition ever rounds.
pub proof fn lemma_run_even(first: int, step_t: int, i: nat)
    requires
        first % 2 == 0,
        step_t % 2 == 0,
    ensures
        run_at(first, step_t, i) == first + i * step_t,
    decreases i,
{
    if i == 0 {
        assert(run_at(first, step_t, 0) == first);
    } else {
        lemma_run_closed_form(first, step_t, i);
        lemma_even_sum(first, step_t);
        lemma_round_milli(first + step_t);
        assert(run_at(first, step_t, i) == first + step_t + (i - 1) * step_t);
        assert(first + step_t + (i - 1) * step_t == first + i * step_t) by (nonlinear_arith);
    }
}

/// Every run value stays within one tick of the exact arithmetic
/// progression it rounds.
pub proof fn lemma_run_near(first: int, step_t: int, i: nat)
    requires
        step_t % 2 == 0,
    ensures
        run_at(first, step_t, 0) == first,
        i >= 1 ==> first + i * step_t - 1 <= run_at(first, step_t, i) <= first + i * step_t + 1,
{
    assert(run_at(first, step_t, 0) == first);
    if i >= 1 {
        lemma_run_closed_form(first, step_t, i);
        lemma_round_milli(first + step_t);
        assert((i - 1) * step_t == i * step_t - step_t) by (nonlinear_arith);
    }
}

/// Rounds a tick count to a whole milli, ties away from zero.
fn round_to_milli(t: i64) -> (r: i64)
    requires
        -0x4000_0000_0000_0000 < t < 0x4000_0000_0000_0000,
    ensures
        r == round_milli(t as int),
{
    if t % 2 == 0 {
        t
    } else if t > 0 {
        t + 1
    } else {
        t - 1
    }
}

/// Builds the `n` first values of a generated run in executable form.
fn generate_run(first: i64, step_t: i64, n: usize) -> (v: Vec<i64>)
    requires
        step_t % 2 == 0,
        2 <= step_t,
        -0x2000_0000_0000_0000 <= first,
        first + n as int * step_t < 0x2000_0000_0000_0000,
    ensures
        v@.len() == n,
        forall|i: int| 0 <= i < n ==> v@[i] == run_at(first as int, step_t as int, i as nat),
{
    let mut v: Vec<i64> = Vec::new();
    if n == 0 {
        return v;
    }
    v.push(first);
    proof {
        lemma_mul_inequality(1, n as int, step_t as int);
    }
    let second: i64 = round_to_milli(first + step_t);
    proof {
        assert(run_at(first as int, step_t as int, 0) == first as int);
        assert(run_at(first as int, step_t as int, 1) == round_milli(first + step_t));
        lemma_round_milli(first + step_t);
    }
    let mut val: i64 = second;
    let mut i: usize = 1;
    while i < n
        invariant
            1 <= i <= n,
            step_t % 2 == 0,
            2 <= step_t,
            -0x2000_0000_0000_0000 <= first,
            first + n as int * step_t < 0x2000_0000_0000_0000,
            v@.len() == i,
            forall|j: int| 0 <= j < i ==> v@[j] == run_at(first as int, step_t as int, j as nat),
            val == run_at(first as int, step_t as int, i as nat),
            val % 2 == 0,
            val <= first + i as int * step_t + 1,
        decreases n - i,
    {
        v.push(val);
        proof {
            lemma_mul_inequality(i as int, n as int, step_t as int);
            lemma_even_sum(val as int, step_t as int);
            lemma_round_milli(val as int + step_t as int);
            lemma_run_closed_form(first as int, step_t as int, (i + 1) as nat);
            lemma_run_closed_form(first as int, step_t as int, i as nat);
            assert((i - 1) * step_t + step_t == i as int * step_t) by (nonlinear_arith);
            assert(i as int * step_t + step_t == (i + 1) * step_t) by (nonlinear_arith);
        }
        val = val + step_t;
        i = i + 1;
    }
    v
}

impl Axis {
    /// Validates and normalizes generation inputs: rejects an empty or
    /// backwards range, a step under one milli, and a range too short for
    /// two values; otherwise hands back the start, the effective step and
    /// the number of values to generate.
    fn get_generation_info(start: i64, end: i64, step: Option<i64>) -> (r: Result<
        (i64, i64, usize),
        AxisError,
    >)
        requires
            milli_in_range(start as int),
            milli_in_range(end as int),
            gen_count_fits(start as int, end as int, eff_step_of(step)),
        ensures
            match gen_error(start as int, end as int, step) {
                Some(e) => r == Err::<(i64, i64, usize), AxisError>(e),
                None => r matches Ok(t) && {
                    &&& start < end
                    &&& t.0 == start
                    &&& t.1 == eff_step_of(step)
                    &&& 1 <= t.1 <= end - start
                    &&& t.2 as int == gen_count(start as int, end as int, t.1 as int)
                    &&& 2 <= t.2 <= 0xffff_fffe
                },
            },
    {
        if start >= end {
            return Err(AxisError::InvalidRange);
        }
        let step_m: i64 = match step {
            Some(s) => {
                if s >= 1 {
                    s
                } else {
                    return Err(AxisError::TooSmallStep);
                }
            },
            None => 1000,
        };
        let diff: i64 = end - start;
        proof {
            vstd::arithmetic::div_mod::lemma_div_nonincreasing(diff as int, step_m as int);
            vstd::arithmetic::div_mod::lemma_div_pos_is_pos(diff as int, step_m as int);
            if diff < step_m {
                vstd::arithmetic::div_mod::lemma_basic_div(diff as int, step_m as int);
            } else {
                vstd::arithmetic::div_mod::lemma_div_non_zero(diff as int, step_m as int);
            }
        }
        let iter_count: i64 = diff / step_m + 1;
        if iter_count < 2 {
            return Err(AxisError::NotEnoughElements);
        }
        Ok((start, step_m, iter_count as usize))
    }
}

/// Which error, if any, a range generation rejects its input with; the
/// checks are ordered: range first, then step, then element count.
pub open spec fn gen_error(start: int, end: int, step: Option<i64>) -> Option<AxisError> {
    if start >= end {
        Some(AxisError::InvalidRange)
    } else if eff_step_of(step) < 1 {
        Some(AxisError::TooSmallStep)
    } else if end - start < eff_step_of(step) {
        Some(AxisError::NotEnoughElements)
    } else {
        None
    }
}

/// Exact contents of an axis generated on edges from the milli range
/// `start..end` with milli step `st`: the edges are the exact progression
/// of whole steps, the centers the re-rounded run starting half a step in.
pub open spec fn on_edges_axis(ax: Axis, start: int, end: int, st: int) -> bool {
    let n = gen_count(start, end, st);
    let stt = 2 * st;
    &&& ax.blocks_count as int == n - 1
    &&& ax.blocks_edges@.len() == n
    &&& ax.blocks_centers@.len() == n - 1
    &&& forall|i: int| 0 <= i < n ==> #[trigger] ax.blocks_edges@[i] == 2 * start + i * stt
    &&& forall|i: int|
        0 <= i < n - 1 ==> #[trigger] ax.blocks_centers@[i] == run_at(
            2 * start + st,
            stt,
            i as nat,
        )
    &&& ax.start == 2 * start
    &&& ax.end == 2 * start + (n - 1) * stt
    &&& ax.step == Some((2 * st) as i64)
}

/// Exact contents of an axis generated on centers: the centers are the
/// exact progression of whole steps, the edges the re-rounded run starting
/// half a step below the start.
pub open spec fn on_centers_axis(ax: Axis, start: int, end: int, st: int) -> bool {
    let n = gen_count(start, end, st);
    let stt = 2 * st;
    &&& ax.blocks_count as int == n
    &&& ax.blocks_edges@.len() == n + 1
    &&& ax.blocks_centers@.len() == n
    &&& forall|i: int| 0 <= i < n ==> #[trigger] ax.blocks_centers@[i] == 2 * start + i * stt
    &&& forall|i: int|
        0 <= i <= n ==> #[trigger] ax.blocks_edges@[i] == run_at(2 * start - st, stt, i as nat)
    &&& ax.start == 2 * start - st
    &&& ax.end == run_at(2 * start - st, stt, n as nat)
    &&& ax.step == Some((2 * st) as i64)
}

/// Exact contents of an axis built from explicit edge points (millis).
pub open spec fn edges_points_axis(ax: Axis, p: Seq<i64>) -> bool {
    &&& ax.blocks_count as int == p.len() - 1
    &&& ax.blocks_edges@.len() == p.len()
    &&& ax.blocks_centers@.len() == p.len() - 1
    &&& forall|i: int| 0 <= i < p.len() ==> #[trigger] ax.blocks_edges@[i] == 2 * p[i]
    &&& forall|i: int|
        0 <= i < p.len() - 1 ==> #[trigger] ax.blocks_centers@[i] == centers_of_edge_points(p, i)
    &&& ax.start == 2 * p[0]
    &&& ax.end == 2 * p[p.len() - 1]
    &&& ax.step is None
}

/// Exact contents of an axis built from explicit center points (millis).
pub open spec fn centers_points_axis(ax: Axis, p: Seq<i64>) -> bool {
    &&& ax.blocks_count as int == p.len()
    &&& ax.blocks_edges@.len() == p.len() + 1
    &&& ax.blocks_centers@.len() == p.len()
    &&& forall|i: int| 0 <= i < p.len() ==> #[trigger] ax.blocks_centers@[i] == 2 * p[i]
    &&& forall|i: int|
        0 <= i <= p.len() ==> #[trigger] ax.blocks_edges@[i] == edges_of_center_points(p, i)
    &&& ax.start == edges_of_center_points(p, 0)
    &&& ax.end == edges_of_center_points(p, p.len() as int)
    &&& ax.step is None
}

impl Axis {
    /// Generates an axis whose edges run from `start` to `end` (whole
    /// millis) in steps of `step` millis (one unit when absent); the
    /// centers are derived as step-based midpoints with the same
    /// re-rounding rule. Rejects a backwards or empty range, a step under
    /// one milli, and a range shorter than one step.
    pub fn generate_axis_on_edges(start: i64, end: i64, step: Option<i64>) -> (r: Result<
        Axis,
        AxisError,
    >)
        requires
            milli_in_range(start as int),
            milli_in_range(end as int),
            gen_count_fits(start as int, end as int, eff_step_of(step)),
        ensures
            match gen_error(start as int, end as int, step) {
                Some(e) => r == Err::<Axis, AxisError>(e),
                None => r is Ok,
            },
            r matches Ok(ax) ==> ax.well_formed() && on_edges_axis(
                ax,
                start as int,
                end as int,
                eff_step_of(step),
            ),
    {
        let (start_m, step_m, n) = match Self::get_generation_info(start, end, step) {
            Ok(t) => t,
            Err(e) => {
                return Err(e);
            },
        };
        let ghost d = end as int - start as int;
        let ghost st = step_m as int;
        proof {
            lemma_gen_products(d, st);
        }
        let step_t: i64 = 2 * step_m;
        let first: i64 = 2 * start_m;
        let edges = generate_run(first, step_t, n);
        let centers = generate_run(first + step_m, step_t, n - 1);
        let e_last: i64 = edges[n - 1];
        proof {
            let fi = first as int;
            let stt = step_t as int;
            let nn = n as int;
            assert forall|i: int| 0 <= i < nn implies #[trigger] edges@[i] == 2 * start + i
                * stt by {
                lemma_run_even(fi, stt, i as nat);
            }
            lemma_run_even(fi, stt, (nn - 1) as nat);
            assert forall|i: int| 0 <= i < nn - 1 implies #[trigger] edges@[i] < edges@[i + 1] by {
                lemma_run_even(fi, stt, i as nat);
                lemma_run_even(fi, stt, (i + 1) as nat);
                assert((i + 1) * stt == i * stt + stt) by (nonlinear_arith);
            }
            assert forall|i: int| 0 <= i < nn - 1 implies edges@[i] <= #[trigger] centers@[i]
                <= edges@[i + 1] by {
                lemma_run_even(fi, stt, i as nat);
                lemma_run_even(fi, stt, (i + 1) as nat);
                lemma_run_near(fi + st, stt, i as nat);
                assert((i + 1) * stt == i * stt + stt) by (nonlinear_arith);
            }
        }
        Ok(
            Axis {
                start: first,
                end: e_last,
                step: Some(step_t),
                blocks_count: n - 1,
                blocks_centers: centers,
                blocks_edges: edges,
            },
        )
    }

    /// Generates an axis whose centers run from `start` to `end` (whole
    /// millis) in steps of `step` millis (one unit when absent); the edges
    /// are derived symmetrically, the first one half a step below the
    /// start, with the same re-rounding rule. Rejects the same inputs as
    /// edge generation.
    pub fn generate_axis_on_centers(start: i64, end: i64, step: Option<i64>) -> (r: Result<
        Axis,
        AxisError,
    >)
        requires
            milli_in_range(start as int),
            milli_in_range(end as int),
            gen_count_fits(start as int, end as int, eff_step_of(step)),
        ensures
            match gen_error(start as int, end as int, step) {
                Some(e) => r == Err::<Axis, AxisError>(e),
                None => r is Ok,
            },
            r matches Ok(ax) ==> ax.well_formed() && on_centers_axis(
                ax,
                start as int,
                end as int,
                eff_step_of(step),
            ),
    {
        let (start_m, step_m, n) = match Self::get_generation_info(start, end, step) {
            Ok(t) => t,
            Err(e) => {
                return Err(e);
            },
        };
        let ghost d = end as int - start as int;
        let ghost st = step_m as int;
        proof {
            lemma_gen_products(d, st);
        }
        let step_t: i64 = 2 * step_m;
        let first_e: i64 = 2 * start_m - step_m;
        let centers = generate_run(2 * start_m, step_t, n);
        let edges = generate_run(first_e, step_t, n + 1);
        let e_last: i64 = edges[n];
        proof {
            let fe = first_e as int;
            let stt = step_t as int;
            let nn = n as int;
            assert forall|i: int| 0 <= i < nn implies #[trigger] centers@[i] == 2 * start + i
                * stt by {
                lemma_run_even(2 * start as int, stt, i as nat);
            }
            assert forall|i: int| 0 <= i < nn implies #[trigger] edges@[i] < edges@[i + 1] by {
                if i == 0 {
                    lemma_run_near(fe, stt, 0);
                    lemma_run_near(fe, stt, 1);
                } else {
                    lemma_run_closed_form(fe, stt, i as nat);
                    lemma_run_closed_form(fe, stt, (i + 1) as nat);
                    assert(i * stt == (i - 1) * stt + stt) by (nonlinear_arith);
                }
            }
            assert forall|i: int| 0 <= i < nn implies edges@[i] <= #[trigger] centers@[i]
                <= edges@[i + 1] by {
                lemma_run_near(fe, stt, i as nat);
                lemma_run_near(fe, stt, (i + 1) as nat);
                lemma_run_even(2 * start as int, stt, i as nat);
                assert((i + 1) * stt == i * stt + stt) by (nonlinear_arith);
            }
        }
        Ok(
            Axis {
                start: first_e,
                end: e_last,
                step: Some(step_t),
                blocks_count: n,
                blocks_centers: centers,
                blocks_edges: edges,
            },
        )
    }
}

impl Axis {
    /// Checks that the input points ascend with gaps of at least two
    /// millis; hands back the first flaw, scanned left to right.
    fn scan_points(points: &Vec<i64>) -> (r: Option<AxisError>)
        requires
            points@.len() >= 2,
            forall|i: int| 0 <= i < points@.len() ==> milli_in_range(#[trigger] points@[i] as int),
        ensures
            r == point_flaw(points@, 1),
            r is None ==> points_spread(points@, 1),
    {
        let mut i: usize = 1;
        while i < points.len()
            invariant
                1 <= i <= points@.len(),
                forall|j: int| 0 <= j < points@.len() ==> milli_in_range(#[trigger] points@[j] as int),
                point_flaw(points@, 1) == point_flaw(points@, i as int),
                points_spread(points@, i as int) ==> points_spread(points@, 1),
            decreases points@.len() - i,
        {
            let a = points[i - 1];
            let b = points[i];
            proof {
                assert(a == points@[i as int - 1] && milli_in_range(points@[i as int - 1] as int));
                assert(b == points@[i as int] && milli_in_range(points@[i as int] as int));
            }
            if b <= a {
                assert(point_flaw(points@, i as int) == Some(AxisError::NotOrderedVec));
                return Some(AxisError::NotOrderedVec);
            }
            if b - a < 2 {
                assert(point_flaw(points@, i as int) == Some(AxisError::MinimalStep));
                return Some(AxisError::MinimalStep);
            }
            assert(point_flaw(points@, i as int) == point_flaw(points@, i + 1));
            i = i + 1;
        }
        assert(point_flaw(points@, points@.len() as int) == None::<AxisError>);
        None
    }

    /// Builds an axis from explicit edge positions (whole millis, already
    /// rounded to three decimals): at least two points, strictly ascending
    /// with gaps of at least two millis; the centers are the rounded
    /// midpoints of adjacent edges.
    pub fn from_vec_as_edges(points: &Vec<i64>) -> (r: Result<Axis, AxisError>)
        requires
            forall|i: int| 0 <= i < points@.len() ==> milli_in_range(#[trigger] points@[i] as int),
        ensures
            points@.len() < 2 ==> r == Err::<Axis, AxisError>(AxisError::TooSmallVec),
            points@.len() >= 2 ==> match point_flaw(points@, 1) {
                Some(e) => r == Err::<Axis, AxisError>(e),
                None => r is Ok,
            },
            r matches Ok(ax) ==> ax.well_formed() && edges_points_axis(ax, points@),
    {
        let n = points.len();
        if n < 2 {
            return Err(AxisError::TooSmallVec);
        }
        if let Some(e) = Self::scan_points(points) {
            return Err(e);
        }
        let mut edges: Vec<i64> = Vec::new();
        let mut k: usize = 0;
        while k < n
            invariant
                n == points@.len(),
                0 <= k <= n,
                edges@.len() == k,
                forall|i: int| 0 <= i < points@.len() ==> milli_in_range(#[trigger] points@[i] as int),
                forall|i: int| 0 <= i < k ==> #[trigger] edges@[i] == 2 * points@[i],
            decreases n - k,
        {
            edges.push(2 * points[k]);
            k = k + 1;
        }
        let mut centers: Vec<i64> = Vec::new();
        let mut k: usize = 0;
        while k < n - 1
            invariant
                n == points@.len(),
                2 <= n,
                0 <= k <= n - 1,
                centers@.len() == k,
                forall|i: int| 0 <= i < points@.len() ==> milli_in_range(#[trigger] points@[i] as int),
                forall|i: int| 0 <= i < k ==> #[trigger] centers@[i] == centers_of_edge_points(
                    points@,
                    i,
                ),
            decreases n - k,
        {
            centers.push(round_to_milli(points[k] + points[k + 1]));
            k = k + 1;
        }
        let e0: i64 = edges[0];
        let e_last: i64 = edges[n - 1];
        proof {
            let p = points@;
            let nn = n as int;
            assert forall|i: int| 0 <= i < nn - 1 implies #[trigger] edges@[i] < edges@[i + 1] by {
                assert(p[i + 1] - p[i] >= 2);
            }
            assert forall|i: int| 0 <= i < nn - 1 implies edges@[i] <= #[trigger] centers@[i]
                <= edges@[i + 1] by {
                assert(p[i + 1] - p[i] >= 2);
                lemma_round_milli(p[i] + p[i + 1]);
            }
        }
        Ok(
            Axis {
                start: e0,
                end: e_last,
                step: None,
                blocks_count: n - 1,
                blocks_centers: centers,
                blocks_edges: edges,
            },
        )
    }

    /// Builds an axis from explicit center positions (whole millis,
    /// already rounded to three decimals): at least two points, strictly
    /// ascending with gaps of at least two millis. Interior edges are
    /// rounded midpoints of adjacent centers; the outermost edges mirror
    /// the first and last interior gap outward.
    pub fn from_vec_as_centers(points: &Vec<i64>) -> (r: Result<Axis, AxisError>)
        requires
            forall|i: int| 0 <= i < points@.len() ==> milli_in_range(#[trigger] points@[i] as int),
        ensures
            points@.len() < 2 ==> r == Err::<Axis, AxisError>(AxisError::TooSmallVec),
            points@.len() >= 2 ==> match point_flaw(points@, 1) {
                Some(e) => r == Err::<Axis, AxisError>(e),
                None => r is Ok,
            },
            r matches Ok(ax) ==> ax.well_formed() && centers_points_axis(ax, points@),
    {
        let n = points.len();
        if n < 2 {
            return Err(AxisError::TooSmallVec);
        }
        if let Some(e) = Self::scan_points(points) {
            return Err(e);
        }
        let mut centers: Vec<i64> = Vec::new();
        let mut k: usize = 0;
        while k < n
            invariant
                n == points@.len(),
                0 <= k <= n,
                centers@.len() == k,
                forall|i: int| 0 <= i < points@.len() ==> milli_in_range(#[trigger] points@[i] as int),
                forall|i: int| 0 <= i < k ==> #[trigger] centers@[i] == 2 * points@[i],
            decreases n - k,
        {
            centers.push(2 * points[k]);
            k = k + 1;
        }
        let mut edges: Vec<i64> = Vec::new();
        edges.push(round_to_milli(3 * points[0] - points[1]));
        let mut k: usize = 1;
        while k < n
            invariant
                n == points@.len(),
                2 <= n,
                1 <= k <= n,
                edges@.len() == k,
                forall|i: int| 0 <= i < points@.len() ==> milli_in_range(#[trigger] points@[i] as int),
                forall|i: int| 0 <= i < k ==> #[trigger] edges@[i] == edges_of_center_points(
                    points@,
                    i,
                ),
            decreases n - k,
        {
            edges.push(round_to_milli(points[k - 1] + points[k]));
            k = k + 1;
        }
        edges.push(round_to_milli(3 * points[n - 1] - points[n - 2]));
        let e0: i64 = edges[0];
        let e_last: i64 = edges[n];
        proof {
            let p = points@;
            let nn = n as int;
            assert(points_spread(p, 1));
            assert forall|i: int| 0 <= i < nn implies #[trigger] edges@[i] < edges@[i + 1] by {
                lemma_center_edges_ascend(p, i);
            }
            assert forall|i: int| 0 <= i < nn implies edges@[i] <= #[trigger] centers@[i]
                <= edges@[i + 1] by {
                lemma_center_edges_ascend(p, i);
            }
        }
        Ok(
            Axis {
                start: e0,
                end: e_last,
                step: None,
                blocks_count: n,
                blocks_centers: centers,
                blocks_edges: edges,
            },
        )
    }
}

/// Edges derived from well-spread center points ascend strictly, and each
/// center sits strictly inside its block.
proof fn lemma_center_edges_ascend(p: Seq<i64>, i: int)
    requires
        p.len() >= 2,
        points_spread(p, 1),
        0 <= i < p.len(),
    ensures
        edges_of_center_points(p, i) < edges_of_center_points(p, i + 1),
        edges_of_center_points(p, i) < 2 * p[i] < edges_of_center_points(p, i + 1),
{
    let n = p.len() as int;
    assert(p[1] - p[0] >= 2);
    assert(p[n - 1] - p[n - 2] >= 2);
    lemma_round_milli(3 * p[0] - p[1]);
    lemma_round_milli(3 * p[n - 1] - p[n - 2]);
    if 0 < i {
        assert(p[i] - p[i - 1] >= 2);
        lemma_round_milli(p[i - 1] + p[i]);
    }
    if i + 1 < n {
        assert(p[i + 1] - p[i] >= 2);
        lemma_round_milli(p[i] + p[i + 1]);
    }
}

impl Axis {
    /// Creates the default axis: edges at every whole unit from 1 to 10,
    /// nine blocks with centers on the half units.
    pub fn new() -> (ax: Axis)
        ensures
            ax.well_formed(),
            ax.blocks_count == 9,
            ax.blocks_edges@.len() == 10,
            forall|i: int| 0 <= i < 10 ==> #[trigger] ax.blocks_edges@[i] == 2000 + i * 2000,
            forall|i: int| 0 <= i < 9 ==> #[trigger] ax.blocks_centers@[i] == 3000 + i * 2000,
            ax.start == 2000,
            ax.end == 20000,
            ax.step == Some(2000i64),
    {
        let r = Self::generate_axis_on_edges(1000, 10000, Some(1000));
        match r {
            Ok(ax) => {
                proof {
                    assert(9000int / 1000int == 9) by (nonlinear_arith);
                    assert(gen_count(1000, 10000, 1000) == 10);
                    assert forall|i: int| 0 <= i < 9 implies #[trigger] ax.blocks_centers@[i]
                        == 3000 + i * 2000 by {
                        lemma_run_even(3000, 2000, i as nat);
                    }
                    assert(ax.blocks_edges@[9] == 2000 + 9 * 2000);
                }
                ax
            },
            Err(e) => {
                proof {
                    assert(gen_error(1000, 10000, Some(1000i64)) is None);
                }
                unreached()
            },
        }
    }

    /// Returns the first edge, in ticks.
    pub fn start(&self) -> (r: i64)
        ensures
            r == self.start,
    {
        self.start
    }

    /// Returns the last edge, in ticks.
    pub fn end(&self) -> (r: i64)
        ensures
            r == self.end,
    {
        self.end
    }

    /// Returns the generation step in ticks, if the axis was generated
    /// from a range.
    pub fn step(&self) -> (r: Option<i64>)
        ensures
            r == self.step,
    {
        self.step
    }

    /// Returns the number of blocks: cells between two adjacent edges.
    pub fn blocks_count(&self) -> (r: usize)
        ensures
            r == self.blocks_count,
    {
        self.blocks_count
    }

    /// Returns the block centers, in ticks.
    pub fn blocks_centers(&self) -> (r: &Vec<i64>)
        ensures
            r@ == self.blocks_centers@,
    {
        &self.blocks_centers
    }

    /// Returns the block edges, in ticks.
    pub fn blocks_edges(&self) -> (r: &Vec<i64>)
        ensures
            r@ == self.blocks_edges@,
    {
        &self.blocks_edges
    }
}

impl Default for Axis {
    /// The default axis is the one `Axis::new` builds.
    fn default() -> (ax: Axis)
        ensures
            ax.well_formed(),
            ax.blocks_count == 9,
            ax.start == 2000,
            ax.end == 20000,
    {
        Axis::new()
    }
}

/// Law: an axis generated on edges begins exactly at its rounded start,
/// and its edges ascend by exactly the step (all in ticks; the milli
/// inputs were rounded by the caller, so `2 * start` is the rounded start).
pub proof fn lemma_on_edges_regular(ax: Axis, start: int, end: int, st: int)
    requires
        start < end,
        1 <= st <= end - start,
        on_edges_axis(ax, start, end, st),
    ensures
        ax.blocks_edges@[0] == 2 * start,
        forall|i: int|
            0 <= i < ax.blocks_edges@.len() - 1 ==> #[trigger] ax.blocks_edges@[i + 1]
                - ax.blocks_edges@[i] == 2 * st,
{
    let n = gen_count(start, end, st);
    assert(ax.blocks_edges@[0] == 2 * start + 0 * (2 * st));
    assert forall|i: int|
        0 <= i < ax.blocks_edges@.len() - 1 implies #[trigger] ax.blocks_edges@[i + 1]
        - ax.blocks_edges@[i] == 2 * st by {
        assert(ax.blocks_edges@[i] == 2 * start + i * (2 * st));
        assert(ax.blocks_edges@[i + 1] == 2 * start + (i + 1) * (2 * st));
        assert((i + 1) * (2 * st) == i * (2 * st) + 2 * st) by (nonlinear_arith);
    }
}

/// Law: an axis generated on centers begins half a step below its rounded
/// start, within one tick, and its edges ascend by the step, the first
/// gap within one tick (half a milli, inside the 0.001 rounding
/// tolerance) and every later gap exactly.
pub proof fn lemma_on_centers_regular(ax: Axis, start: int, end: int, st: int)
    requires
        start < end,
        1 <= st <= end - start,
        on_centers_axis(ax, start, end, st),
    ensures
        ax.blocks_edges@[0] == 2 * start - st,
        forall|i: int|
            0 <= i < ax.blocks_edges@.len() - 1 ==> 2 * st - 1 <= #[trigger] ax.blocks_edges@[i
                + 1] - ax.blocks_edges@[i] <= 2 * st + 1,
        forall|i: int|
            1 <= i < ax.blocks_edges@.len() - 1 ==> #[trigger] ax.blocks_edges@[i + 1]
                - ax.blocks_edges@[i] == 2 * st,
{
    let n = gen_count(start, end, st);
    let fe = 2 * start - st;
    let stt = 2 * st;
    assert(ax.blocks_edges@[0] == run_at(fe, stt, 0));
    assert(run_at(fe, stt, 0) == fe);
    assert forall|i: int|
        0 <= i < ax.blocks_edges@.len() - 1 implies (2 * st - 1 <= #[trigger] ax.blocks_edges@[i
        + 1] - ax.blocks_edges@[i] <= 2 * st + 1) && (1 <= i ==> ax.blocks_edges@[i + 1]
        - ax.blocks_edges@[i] == 2 * st) by {
        assert(ax.blocks_edges@[i] == run_at(fe, stt, i as nat));
        assert(ax.blocks_edges@[i + 1] == run_at(fe, stt, (i + 1) as nat));
        if i == 0 {
            lemma_run_near(fe, stt, 0);
            lemma_run_near(fe, stt, 1);
        } else {
            lemma_run_closed_form(fe, stt, i as nat);
            lemma_run_closed_form(fe, stt, (i + 1) as nat);
            assert(i * stt == (i - 1) * stt + stt) by (nonlinear_arith);
        }
    }
}

/// Law: feeding the edge positions of a range-generated axis back in as
/// explicit points rebuilds that axis exactly — the same edges and the
/// same centers — whenever the step is an even number of millis, so that
/// the step-based midpoints land on whole millis like the rounded
/// pairwise midpoints do.
pub proof fn lemma_points_reproduce_generated(
    ax_g: Axis,
    ax_p: Axis,
    start: int,
    end: int,
    st: int,
    p: Seq<i64>,
)
    requires
        start < end,
        2 <= st <= end - start,
        st % 2 == 0,
        on_edges_axis(ax_g, start, end, st),
        p.len() == gen_count(start, end, st),
        forall|i: int| 0 <= i < p.len() ==> #[trigger] p[i] == start + i * st,
        edges_points_axis(ax_p, p),
    ensures
        ax_p.blocks_edges@ =~= ax_g.blocks_edges@,
        ax_p.blocks_centers@ =~= ax_g.blocks_centers@,
{
    let n = gen_count(start, end, st);
    let stt = 2 * st;
    assert forall|i: int| 0 <= i < n implies ax_p.blocks_edges@[i] == ax_g.blocks_edges@[i] by {
        assert(ax_p.blocks_edges@[i] == 2 * p[i]);
        assert(ax_g.blocks_edges@[i] == 2 * start + i * stt);
        assert(2 * (start + i * st) == 2 * start + i * (2 * st)) by (nonlinear_arith);
    }
    assert forall|i: int| 0 <= i < n - 1 implies ax_p.blocks_centers@[i]
        == ax_g.blocks_centers@[i] by {
        assert(ax_p.blocks_centers@[i] == round_milli(p[i] + p[i + 1]));
        assert(p[i] + p[i + 1] == 2 * start + 2 * (i * st) + st) by (nonlinear_arith)
            requires
                p[i] == start + i * st,
                p[i + 1] == start + (i + 1) * st,
        ;
        lemma_even_sum(2 * (start + i * st), st);
        vstd::arithmetic::div_mod::lemma_mod_multiples_basic(start + i * st, 2);
        assert((start + i * st) * 2 == 2 * start + 2 * (i * st)) by (nonlinear_arith);
        lemma_round_milli(p[i] + p[i + 1]);
        lemma_run_even(2 * start + st, stt, i as nat);
        assert(ax_g.blocks_centers@[i] == 2 * start + st + i * (2 * st));
        assert(2 * start + st + i * (2 * st) == 2 * start + 2 * (i * st) + st) by (nonlinear_arith);
    }
}

/// Products that bound a generation: with `1 <= st <= d`, the count
/// `d / st + 1` times the step stays within twice the range width.
proof fn lemma_gen_products(d: int, st: int)
    requires
        1 <= st <= d,
    ensures
        (gen_count(0, d, st)) * st <= d + st,
        (gen_count(0, d, st)) * (2 * st) <= 2 * d + 2 * st,
        (gen_count(0, d, st) - 1) * (2 * st) <= 2 * d,
        (gen_count(0, d, st) + 1) * (2 * st) <= 2 * d + 4 * st,
        gen_count(0, d, st) >= 2,
{
    let q = d / st;
    vstd::arithmetic::div_mod::lemma_fundamental_div_mod(d, st);
    vstd::arithmetic::div_mod::lemma_div_pos_is_pos(d, st);
    vstd::arithmetic::div_mod::lemma_div_non_zero(d, st);
    assert(q * st == d - d % st);
    assert((q + 1) * st == q * st + st) by (nonlinear_arith);
    assert((q + 1) * (2 * st) == 2 * ((q + 1) * st)) by (nonlinear_arith);
    assert(q * (2 * st) == 2 * (q * st)) by (nonlinear_arith);
    assert((q + 2) * (2 * st) == 2 * (q * st) + 4 * st) by (nonlinear_arith);
}

} // verus!
