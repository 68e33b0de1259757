//! The default axis, the accessors, the rejected inputs, and the
//! agreement between range generation and explicit point lists.

use grunt::Axis;
use grunt::AxisError;

#[test]
fn default_axis_values() {
    let ax = Axis::new();
    assert_eq!(ax.start(), 2000);
    assert_eq!(ax.end(), 20000);
    assert_eq!(ax.step(), Some(2000));
    assert_eq!(ax.blocks_count(), 9);
    assert_eq!(
        *ax.blocks_edges(),
        vec![2000, 4000, 6000, 8000, 10000, 12000, 14000, 16000, 18000, 20000]
    );
    assert_eq!(
        *ax.blocks_centers(),
        vec![3000, 5000, 7000, 9000, 11000, 13000, 15000, 17000, 19000]
    );

    let d = Axis::default();
    assert_eq!(*d.blocks_edges(), *ax.blocks_edges());
    assert_eq!(*d.blocks_centers(), *ax.blocks_centers());
}

#[test]
fn accessors_follow_generation() {
    let ax = Axis::generate_axis_on_centers(1000, 2000, Some(500)).unwrap();
    assert_eq!(*ax.blocks_edges(), vec![1500, 2500, 3500, 4500]);
    assert_eq!(ax.start(), 1500);
    assert_eq!(ax.end(), 4500);
    assert_eq!(ax.step(), Some(1000));
    assert_eq!(ax.blocks_count(), 3);
    assert_eq!(*ax.blocks_centers(), vec![2000, 3000, 4000]);
}

#[test]
fn points_reproduce_generated_axis() {
    let generated = Axis::generate_axis_on_edges(1000, 4000, Some(1000)).unwrap();
    let from_points = Axis::from_vec_as_edges(&vec![1000, 2000, 3000, 4000]).unwrap();
    assert_eq!(*from_points.blocks_edges(), *generated.blocks_edges());
    assert_eq!(*from_points.blocks_centers(), *generated.blocks_centers());
    assert_eq!(from_points.start(), generated.start());
    assert_eq!(from_points.end(), generated.end());
    assert_eq!(from_points.blocks_count(), generated.blocks_count());
}

#[test]
fn degenerate_inputs_are_rejected() {
    // A backwards range.
    let r = Axis::generate_axis_on_edges(5000, 1000, None);
    assert_eq!(r.unwrap_err(), AxisError::InvalidRange);

    // An empty range.
    let r = Axis::generate_axis_on_centers(1000, 1000, None);
    assert_eq!(r.unwrap_err(), AxisError::InvalidRange);

    // A step under one milli.
    let r = Axis::generate_axis_on_edges(1000, 2000, Some(0));
    assert_eq!(r.unwrap_err(), AxisError::TooSmallStep);

    // A range shorter than one step.
    let r = Axis::generate_axis_on_edges(1000, 1500, Some(1000));
    assert_eq!(r.unwrap_err(), AxisError::NotEnoughElements);

    // A single point.
    let r = Axis::from_vec_as_edges(&vec![5000]);
    assert_eq!(r.unwrap_err(), AxisError::TooSmallVec);

    // A repeated point.
    let r = Axis::from_vec_as_edges(&vec![1000, 1000]);
    assert_eq!(r.unwrap_err(), AxisError::NotOrderedVec);

    // A decreasing pair.
    let r = Axis::from_vec_as_centers(&vec![2000, 1000]);
    assert_eq!(r.unwrap_err(), AxisError::NotOrderedVec);

    // Increasing, but by a single milli.
    let r = Axis::from_vec_as_edges(&vec![1000, 1001]);
    assert_eq!(r.unwrap_err(), AxisError::MinimalStep);

    // The first flaw decides: the repeat at the front wins over the
    // short gap behind it.
    let r = Axis::from_vec_as_centers(&vec![1000, 1000, 1001]);
    assert_eq!(r.unwrap_err(), AxisError::NotOrderedVec);
}

#[test]
fn generated_edges_ascend_by_step() {
    let ax = Axis::generate_axis_on_edges(-2000, 9000, Some(700)).unwrap();
    let edges = ax.blocks_edges();
    assert_eq!(edges[0], -4000);
    for i in 1..edges.len() {
        assert_eq!(edges[i] - edges[i - 1], 1400);
    }

    // Generated on centers, the first gap may shift by one tick (half a
    // milli, within the 0.001 rounding tolerance), the rest are exact.
    let ax = Axis::generate_axis_on_centers(-2000, 9000, Some(700)).unwrap();
    let edges = ax.blocks_edges();
    assert_eq!(edges[0], -4700);
    assert!((edges[1] - edges[0] - 1400i64).abs() <= 1);
    for i in 2..edges.len() {
        assert_eq!(edges[i] - edges[i - 1], 1400);
    }
}

#[test]
fn error_messages_name_the_flaw() {
    assert_eq!(
        AxisError::InvalidRange.message(),
        "End's value must be bigger than start's ones"
    );
    assert_eq!(
        AxisError::TooSmallVec.message(),
        "Input vector must contain at least 2 elements"
    );
    assert_eq!(
        AxisError::MinimalStep.message(),
        "Minimal step for input vec must be at least 0.002"
    );
}
