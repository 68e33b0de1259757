//! Configuration of the border surfaces: how many layers a model has, how
//! each layer is generated and between which value limits.

use vstd::prelude::*;

verus! {

/// Everything a borders configuration can be rejected for.
#[derive(Debug, Clone, Copy, PartialEq, Eq, Structural)]
pub enum BorderError {
    IncorrectBordersCount,
    IncorrectBordersLimits,
}

impl BorderError {
    /// A human-readable diagnosis of the rejection.
    pub fn message(&self) -> (r: &'static str)
        ensures
            *self is IncorrectBordersCount ==> r@
                == "Number of borders must be between 1 and 255"@,
            *self is IncorrectBordersLimits ==> r@
                == "Your border limits must be [min value, <= max value]"@,
    {
        match self {
            BorderError::IncorrectBordersCount => "Number of borders must be between 1 and 255",
            BorderError::IncorrectBordersLimits => "Your border limits must be [min value, <= max value]",
        }
    }
}

/// How one border layer is generated: every cell independently uniform,
/// or a bounded random walk whose cells stay within the given step of
/// their left and upper neighbors. The second walk field is a reserved
/// probability knob in thousandths; no generation rule consults it yet.
#[derive(Debug, Clone, Copy, PartialEq, Eq, Structural)]
pub enum BorderType {
    Random,
    RandomWithStep(u16, u32),
}

/// Immutable borders configuration. A model with `number_of_borders`
/// layers reads entry `i % len` of each list for layer `i`, so the lists
/// may be shorter or longer than the layer count.
#[derive(Debug, Clone)]
pub struct BordersParams {
    pub number_of_borders: u8,
    pub borders_type: Vec<BorderType>,
    pub borders_limits: Vec<[u32; 2]>,
}

/// Every limit pair keeps its minimum at or below its maximum.
pub open spec fn limits_ordered(ls: Seq<[u32; 2]>) -> bool {
    forall|i: int| 0 <= i < ls.len() ==> #[trigger] ls[i][0] <= ls[i][1]
}

impl BordersParams {
    /// Accepts a layer count between 1 and 255 and limit pairs with
    /// `min <= max` each; the type and limit lists are copied as given.
    pub fn new(
        number_of_borders: u32,
        borders_type: &Vec<BorderType>,
        borders_limits: &Vec<[u32; 2]>,
    ) -> (r: Result<BordersParams, BorderError>)
        ensures
            r == Err::<BordersParams, BorderError>(BorderError::IncorrectBordersCount) <==> !(1
                <= number_of_borders <= 255),
            r == Err::<BordersParams, BorderError>(BorderError::IncorrectBordersLimits) <==> (1
                <= number_of_borders <= 255 && !limits_ordered(borders_limits@)),
            r matches Ok(b) ==> {
                &&& b.number_of_borders as int == number_of_borders as int
                &&& b.borders_type@ == borders_type@
                &&& b.borders_limits@ == borders_limits@
                &&& limits_ordered(b.borders_limits@)
            },
    {
        if number_of_borders == 0 || number_of_borders > 255 {
            return Err(BorderError::IncorrectBordersCount);
        }
        let mut i: usize = 0;
        while i < borders_limits.len()
            invariant
                0 <= i <= borders_limits@.len(),
                1 <= number_of_borders <= 255,
                forall|j: int| 0 <= j < i ==> #[trigger] borders_limits@[j][0]
                    <= borders_limits@[j][1],
            decreases borders_limits@.len() - i,
        {
            let pair = borders_limits[i];
            if pair[0] > pair[1] {
                proof {
                    assert(borders_limits@[i as int][0] > borders_limits@[i as int][1]);
                    assert(!limits_ordered(borders_limits@));
                }
                return Err(BorderError::IncorrectBordersLimits);
            }
            i = i + 1;
        }
        let mut types: Vec<BorderType> = Vec::new();
        let mut k: usize = 0;
        while k < borders_type.len()
            invariant
                0 <= k <= borders_type@.len(),
                types@ == borders_type@.subrange(0, k as int),
            decreases borders_type@.len() - k,
        {
            types.push(borders_type[k]);
            k = k + 1;
        }
        let mut limits: Vec<[u32; 2]> = Vec::new();
        let mut k: usize = 0;
        while k < borders_limits.len()
            invariant
                0 <= k <= borders_limits@.len(),
                limits@ == borders_limits@.subrange(0, k as int),
            decreases borders_limits@.len() - k,
        {
            limits.push(borders_limits[k]);
            k = k + 1;
        }
        proof {
            assert(types@ == borders_type@);
            assert(limits@ == borders_limits@);
        }
        Ok(
            BordersParams {
                number_of_borders: number_of_borders as u8,
                borders_type: types,
                borders_limits: limits,
            },
        )
    }

    /// Returns how many border layers a model generates.
    pub fn number_of_borders(&self) -> (r: u8)
        ensures
            r == self.number_of_borders,
    {
        self.number_of_borders
    }

    /// Returns the per-layer generation policies.
    pub fn borders_type(&self) -> (r: &Vec<BorderType>)
        ensures
            r@ == self.borders_type@,
    {
        &self.borders_type
    }

    /// Returns the per-layer `[min, max]` limit pairs.
    pub fn borders_limits(&self) -> (r: &Vec<[u32; 2]>)
        ensures
            r@ == self.borders_limits@,
    {
        &self.borders_limits
    }
}

impl Default for BordersParams {
    /// Two uniform layers, the first between 5 and 10, the second between
    /// 15 and 20.
    fn default() -> (b: BordersParams)
        ensures
            b.number_of_borders == 2,
            b.borders_type@ =~= seq![BorderType::Random, BorderType::Random],
            b.borders_limits@.len() == 2,
            b.borders_limits@[0] == [5u32, 10u32],
            b.borders_limits@[1] == [15u32, 20u32],
            limits_ordered(b.borders_limits@),
    {
        let mut types: Vec<BorderType> = Vec::new();
        types.push(BorderType::Random);
        types.push(BorderType::Random);
        let mut limits: Vec<[u32; 2]> = Vec::new();
        limits.push([5, 10]);
        limits.push([15, 20]);
        BordersParams { number_of_borders: 2, borders_type: types, borders_limits: limits }
    }
}

} // verus!
