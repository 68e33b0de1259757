//! The layer generators and the validator: bounds, step bounds, seeded
//! determinism, and the exact findings the validator reports.

use grunt::RandomSource;
use grunt::Violation;
use grunt::random;
use grunt::random_with_step;
use grunt::validate_layer;

#[test]
fn uniform_layer_in_bounds() {
    let mut rng = RandomSource::from_seed(11);
    let layer = random::generate_layer(&mut rng, (9, 7), [40, 60]);
    assert_eq!(layer.len(), 9);
    for row in &layer {
        assert_eq!(row.len(), 7);
        for &v in row {
            assert!((40..=60).contains(&v));
        }
    }

    // A one-value range pins every cell.
    let layer = random::generate_layer(&mut rng, (3, 3), [7, 7]);
    for row in &layer {
        for &v in row {
            assert_eq!(v, 7);
        }
    }
}

#[test]
fn walk_layer_neighbor_bounds() {
    let mut rng = RandomSource::from_seed(23);
    let step: u32 = 3;
    let layer = random_with_step::generate_layer(&mut rng, 3, 1000, (20, 17), [35, 89]);
    assert_eq!(layer.len(), 20);
    for y in 0..layer.len() {
        assert_eq!(layer[y].len(), 17);
        for x in 0..layer[y].len() {
            let v = layer[y][x];
            assert!((35..=89).contains(&v));
            // The range is wider than two steps, so the bound holds
            // everywhere, first row and column included.
            if x > 0 {
                assert!(v.abs_diff(layer[y][x - 1]) <= step);
            }
            if y > 0 {
                assert!(v.abs_diff(layer[y - 1][x]) <= step);
            }
        }
    }
}

#[test]
fn walk_layer_narrow_range() {
    // A range narrower than two steps: every cell still lies within the
    // limits, and interior cells still respect the step bound.
    let mut rng = RandomSource::from_seed(5);
    let step: u32 = 9;
    let layer = random_with_step::generate_layer(&mut rng, 9, 1000, (8, 8), [10, 12]);
    for y in 0..8 {
        for x in 0..8 {
            let v = layer[y][x];
            assert!((10..=12).contains(&v));
            if y > 0 && x > 0 {
                assert!(v.abs_diff(layer[y][x - 1]) <= step);
                assert!(v.abs_diff(layer[y - 1][x]) <= step);
            }
        }
    }
}

#[test]
fn seeded_sources_replay() {
    let mut a = RandomSource::from_seed(99);
    let mut b = RandomSource::from_seed(99);
    let la = random_with_step::generate_layer(&mut a, 4, 1000, (6, 6), [0, 50]);
    let lb = random_with_step::generate_layer(&mut b, 4, 1000, (6, 6), [0, 50]);
    assert_eq!(la, lb);
    let mut c = RandomSource::from_seed(100);
    let lc = random_with_step::generate_layer(&mut c, 4, 1000, (6, 6), [0, 50]);
    // A different seed is almost surely a different layer; with 36 cells
    // over a 51-value range a collision would be astonishing.
    assert_ne!(la, lc);
}

#[test]
fn validator_accepts_clean_layer() {
    let layer = vec![vec![5u32, 6, 7], vec![6, 7, 8], vec![7, 8, 9]];
    assert!(validate_layer(&layer, [5, 9], Some(1)).is_ok());
    assert!(validate_layer(&layer, [5, 9], None).is_ok());
}

#[test]
fn validator_reports_small_layer() {
    let layer = vec![vec![5u32, 6]];
    let v = validate_layer(&layer, [5, 9], None).unwrap_err();
    assert_eq!(v, vec![Violation::LayerTooSmall]);
}

#[test]
fn validator_reports_out_of_bounds() {
    let layer = vec![vec![5u32, 6], vec![6, 99]];
    let v = validate_layer(&layer, [5, 9], None).unwrap_err();
    assert_eq!(v, vec![Violation::OutOfBounds(1, 1)]);
}

#[test]
fn validator_reports_step_violations() {
    // The cell at (1,1) jumps by 5 from its left neighbor and by 4 from
    // the cell above; the step bound is 2.
    let layer = vec![vec![10u32, 12], vec![11, 16]];
    let v = validate_layer(&layer, [0, 100], Some(2)).unwrap_err();
    assert!(v.contains(&Violation::StepViolationLeft(1, 1)));
    assert!(v.contains(&Violation::StepViolationUp(1, 1)));
    assert_eq!(v.len(), 2);

    // Step violations in the first row and first column are reported
    // too.
    let layer = vec![vec![10u32, 20], vec![30, 20]];
    let v = validate_layer(&layer, [0, 100], Some(5)).unwrap_err();
    assert!(v.contains(&Violation::StepViolationLeft(0, 1)));
    assert!(v.contains(&Violation::StepViolationUp(1, 0)));

    // Without a step bound the same layer is clean.
    assert!(validate_layer(&layer, [0, 100], None).is_ok());
}

#[test]
fn validator_collects_every_violation() {
    let layer = vec![vec![1u32, 50], vec![50, 1]];
    let v = validate_layer(&layer, [0, 10], Some(3)).unwrap_err();
    assert!(v.contains(&Violation::OutOfBounds(0, 1)));
    assert!(v.contains(&Violation::OutOfBounds(1, 0)));
    assert!(v.contains(&Violation::StepViolationLeft(0, 1)));
    assert!(v.contains(&Violation::StepViolationUp(1, 0)));
    assert!(v.contains(&Violation::StepViolationLeft(1, 1)));
    assert!(v.contains(&Violation::StepViolationUp(1, 1)));
}
