//! The configuration types: borders parameters, fill values and the
//! shared parameter aggregate.

use grunt::Axis;
use grunt::BorderError;
use grunt::BorderType;
use grunt::BordersParams;
use grunt::FillType;
use grunt::FillValues;
use grunt::FillValuesError;
use grunt::Params3D;
use std::sync::Arc;

#[test]
fn borders_params_rejects_bad_counts_and_limits() {
    let types = vec![BorderType::Random];
    let limits = vec![[5u32, 10u32]];

    let r = BordersParams::new(0, &types, &limits);
    assert_eq!(r.unwrap_err(), BorderError::IncorrectBordersCount);

    let r = BordersParams::new(256, &types, &limits);
    assert_eq!(r.unwrap_err(), BorderError::IncorrectBordersCount);

    let r = BordersParams::new(3, &types, &vec![[20u32, 10u32]]);
    assert_eq!(r.unwrap_err(), BorderError::IncorrectBordersLimits);

    let b = BordersParams::new(3, &types, &limits).unwrap();
    assert_eq!(b.number_of_borders(), 3);
    assert_eq!(*b.borders_type(), types);
    assert_eq!(*b.borders_limits(), limits);
}

#[test]
fn borders_params_default_values() {
    let b = BordersParams::default();
    assert_eq!(b.number_of_borders(), 2);
    assert_eq!(*b.borders_type(), vec![BorderType::Random, BorderType::Random]);
    assert_eq!(*b.borders_limits(), vec![[5u32, 10u32], [15u32, 20u32]]);
}

#[test]
fn fill_values_validation() {
    let r = FillValues::new(vec![FillType::RandomBetween(10, 1)], 0, true);
    assert_eq!(r.unwrap_err(), FillValuesError::IncorrectFillLimits);

    let r = FillValues::new(vec![FillType::ValueFrom(vec![])], 0, true);
    assert_eq!(r.unwrap_err(), FillValuesError::NotEnoughtElements);

    // The first flaw decides.
    let r = FillValues::new(
        vec![FillType::ValueFrom(vec![]), FillType::RandomBetween(10, 1)],
        0,
        true,
    );
    assert_eq!(r.unwrap_err(), FillValuesError::NotEnoughtElements);

    let fv = FillValues::new(
        vec![FillType::RandomBetween(1, 10), FillType::ValueFrom(vec![1500, 2500])],
        4,
        false,
    )
    .unwrap();
    assert_eq!(fv.fill_values().len(), 2);
    assert_eq!(fv.values_smooth(), 4);
    assert!(!fv.is_preset_ordered());

    let d = FillValues::default();
    assert_eq!(*d.fill_values(), vec![FillType::RandomBetween(1, 10)]);
    assert_eq!(d.values_smooth(), 0);
    assert!(d.is_preset_ordered());
}

#[test]
fn params3d_holds_its_parts() {
    let ax = Arc::new(Axis::generate_axis_on_edges(0, 4000, Some(1000)).unwrap());
    let ay = Arc::new(Axis::generate_axis_on_edges(0, 3000, Some(1000)).unwrap());
    let bp = Arc::new(BordersParams::default());
    let fv = Arc::new(vec![FillValues::default()]);
    let p = Params3D::new(ax.clone(), ay.clone(), bp.clone(), fv.clone());
    assert_eq!(*p.axis_x().blocks_edges(), *ax.blocks_edges());
    assert_eq!(*p.axis_y().blocks_edges(), *ay.blocks_edges());
    assert_eq!(p.borders().number_of_borders(), bp.number_of_borders());
    assert_eq!(p.fill_values().len(), fv.len());
}

#[test]
fn config_error_messages() {
    assert_eq!(
        BorderError::IncorrectBordersCount.message(),
        "Number of borders must be between 1 and 255"
    );
    assert_eq!(
        FillValuesError::IncorrectFillLimits.message(),
        "Your border FillLimit must be [min value, <= max value]"
    );
}
