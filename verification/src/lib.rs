//! Discretized coordinate axes and randomized, spatially constrained border
//! surfaces for 3-D block models.
//!
//! Every coordinate is kept as a fixed-point integer number of *ticks*, one
//! tick being 0.0005 coordinate units, so that a whole milli (0.001 units)
//! is an even number of ticks. Constructors take
//! milli values, already rounded to three decimals by the caller; derived
//! midpoints may land on odd ticks, which is exactly the half-milli
//! resolution the rounding rules of this library can produce.

pub mod axis;
pub mod borders;
pub mod borders3d;
pub mod export;
pub mod fill_values;
pub mod model3d;
pub mod params3d;
pub mod random;
pub mod random_with_step;
pub mod rng;

pub use axis::Axis;
pub use axis::AxisError;
pub use borders::BorderError;
pub use borders::BorderType;
pub use borders::BordersParams;
pub use borders3d::Violation;
pub use borders3d::generate_borders;
pub use borders3d::validate_layer;
pub use export::export_border_num;
pub use fill_values::FillType;
pub use fill_values::FillValues;
pub use fill_values::FillValuesError;
pub use model3d::LayerIssue;
pub use model3d::Model3D;
pub use model3d::generate_model3d;
pub use model3d::generate_model3d_validated;
pub use params3d::Params3D;
pub use rng::RandomSource;
