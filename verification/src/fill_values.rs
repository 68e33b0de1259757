//! Configuration of the per-layer fill values. These types are validated
//! and carried through the model parameters as inert data; no generation
//! rule in this crate consumes them yet.

use vstd::prelude::*;

verus! {

/// Everything a fill configuration can be rejected for.
#[derive(Debug, Clone, Copy, PartialEq, Eq, Structural)]
pub enum FillValuesError {
    NotEnoughtElements,
    IncorrectFillLimits,
}

impl FillValuesError {
    /// A human-readable diagnosis of the rejection.
    pub fn message(&self) -> (r: &'static str)
        ensures
            *self is NotEnoughtElements ==> r@ == "Number of values to fill must be at least 1"@,
            *self is IncorrectFillLimits ==> r@
                == "Your border FillLimit must be [min value, <= max value]"@,
    {
        match self {
            FillValuesError::NotEnoughtElements => "Number of values to fill must be at least 1",
            FillValuesError::IncorrectFillLimits => "Your border FillLimit must be [min value, <= max value]",
        }
    }
}

/// Where a layer's fill value comes from: a uniform draw between two
/// bounds (both inclusive), or a pick from an explicit set. Picked values
/// are whole millis (thousandths of a unit), matching the axis scale.
#[derive(Debug, Clone, PartialEq)]
pub enum FillType {
    RandomBetween(i32, i32),
    ValueFrom(Vec<i64>),
}

/// Immutable fill configuration for one layer group: the value sources,
/// the smoothing strength, and whether the preset keeps its order.
#[derive(Debug, Clone)]
pub struct FillValues {
    pub fill_values: Vec<FillType>,
    pub values_smooth: u16,
    pub is_preset_ordered: bool,
}

/// The first flaw among the fill sources, scanned left to right: a range
/// with its lower bound above its upper, or an empty value set.
pub open spec fn fill_flaw(fs: Seq<FillType>, i: int) -> Option<FillValuesError>
    decreases fs.len() - i,
{
    if i < 0 || i >= fs.len() {
        None
    } else {
        match fs[i] {
            FillType::RandomBetween(lower, upper) => if lower > upper {
                Some(FillValuesError::IncorrectFillLimits)
            } else {
                fill_flaw(fs, i + 1)
            },
            FillType::ValueFrom(values) => if values@.len() == 0 {
                Some(FillValuesError::NotEnoughtElements)
            } else {
                fill_flaw(fs, i + 1)
            },
        }
    }
}

impl FillValues {
    /// Accepts sources whose ranges are ordered and whose value sets are
    /// non-empty; the first flaw found decides the error.
    pub fn new(fill_values: Vec<FillType>, values_smooth: u16, is_preset_ordered: bool) -> (r:
        Result<FillValues, FillValuesError>)
        ensures
            match fill_flaw(fill_values@, 0) {
                Some(e) => r == Err::<FillValues, FillValuesError>(e),
                None => r matches Ok(fv) && {
                    &&& fv.fill_values@ == fill_values@
                    &&& fv.values_smooth == values_smooth
                    &&& fv.is_preset_ordered == is_preset_ordered
                },
            },
    {
        let n = fill_values.len();
        let mut i: usize = 0;
        while i < n
            invariant
                0 <= i <= n,
                n == fill_values@.len(),
                fill_flaw(fill_values@, 0) == fill_flaw(fill_values@, i as int),
            decreases n - i,
        {
            match &fill_values[i] {
                FillType::RandomBetween(lower, upper) => {
                    if lower > upper {
                        assert(fill_flaw(fill_values@, i as int) == Some(
                            FillValuesError::IncorrectFillLimits,
                        ));
                        return Err(FillValuesError::IncorrectFillLimits);
                    }
                },
                FillType::ValueFrom(values) => {
                    if values.len() == 0 {
                        assert(fill_flaw(fill_values@, i as int) == Some(
                            FillValuesError::NotEnoughtElements,
                        ));
                        return Err(FillValuesError::NotEnoughtElements);
                    }
                },
            }
            assert(fill_flaw(fill_values@, i as int) == fill_flaw(fill_values@, i + 1));
            i = i + 1;
        }
        assert(fill_flaw(fill_values@, n as int) == None::<FillValuesError>);
        Ok(FillValues { fill_values, values_smooth, is_preset_ordered })
    }

    /// Returns the value sources.
    pub fn fill_values(&self) -> (r: &Vec<FillType>)
        ensures
            r@ == self.fill_values@,
    {
        &self.fill_values
    }

    /// Returns the smoothing strength: how many values smoothing may
    /// change.
    pub fn values_smooth(&self) -> (r: u16)
        ensures
            r == self.values_smooth,
    {
        self.values_smooth
    }

    /// Returns whether the preset keeps its order.
    pub fn is_preset_ordered(&self) -> (r: bool)
        ensures
            r == self.is_preset_ordered,
    {
        self.is_preset_ordered
    }
}

impl Default for FillValues {
    /// One uniform source between 1 and 10, no smoothing, ordered preset.
    fn default() -> (fv: FillValues)
        ensures
            fv.fill_values@ =~= seq![FillType::RandomBetween(1i32, 10i32)],
            fv.values_smooth == 0,
            fv.is_preset_ordered == true,
    {
        let mut sources: Vec<FillType> = Vec::new();
        sources.push(FillType::RandomBetween(1, 10));
        FillValues { fill_values: sources, values_smooth: 0, is_preset_ordered: true }
    }
}

} // verus!
