//! Static checks of axis generation at the half-milli tick scale: one
//! tick is 0.0005 coordinate units, so a whole unit is 2000 ticks and a
//! milli input of 1000 stands for the coordinate 1.0.

use grunt::Axis;

#[test]
fn axis_generation_tests() {
    // 1.0 to 4.0, step 1.0: edges 1,2,3,4 and centers 1.5,2.5,3.5.
    let ax = Axis::generate_axis_on_edges(1000, 4000, Some(1000)).unwrap();
    assert_eq!(*ax.blocks_edges(), vec![2000, 4000, 6000, 8000]);
    assert_eq!(*ax.blocks_centers(), vec![3000, 5000, 7000]);

    // 1.0 to 4.5, default step: same axis as above.
    let ax = Axis::generate_axis_on_edges(1000, 4500, None).unwrap();
    assert_eq!(*ax.blocks_edges(), vec![2000, 4000, 6000, 8000]);
    assert_eq!(*ax.blocks_centers(), vec![3000, 5000, 7000]);

    // 1.0 to 5.0, step 1.3: edges 1.0,2.3,3.6,4.9, centers 1.65,2.95,4.25.
    let ax = Axis::generate_axis_on_edges(1000, 5000, Some(1300)).unwrap();
    assert_eq!(*ax.blocks_edges(), vec![2000, 4600, 7200, 9800]);
    assert_eq!(*ax.blocks_centers(), vec![3300, 5900, 8500]);

    // 1.0 to 1.006, step 0.002: centers on the odd millis.
    let ax = Axis::generate_axis_on_edges(1000, 1006, Some(2)).unwrap();
    assert_eq!(*ax.blocks_edges(), vec![2000, 2004, 2008, 2012]);
    assert_eq!(*ax.blocks_centers(), vec![2002, 2006, 2010]);

    // 10000.0 to 10000.006, step 0.002: the same shape far from zero.
    let ax = Axis::generate_axis_on_edges(10_000_000, 10_000_006, Some(2)).unwrap();
    assert_eq!(*ax.blocks_edges(), vec![20_000_000, 20_000_004, 20_000_008, 20_000_012]);
    assert_eq!(*ax.blocks_centers(), vec![20_000_002, 20_000_006, 20_000_010]);

    // -10000.0 to -9999.995, step 0.002.
    let ax = Axis::generate_axis_on_edges(-10_000_000, -9_999_995, Some(2)).unwrap();
    assert_eq!(*ax.blocks_edges(), vec![-20_000_000, -19_999_996, -19_999_992]);
    assert_eq!(*ax.blocks_centers(), vec![-19_999_998, -19_999_994]);

    // 1.0 to 1.001, step 0.001: the single center is the half milli
    // 1.0005, one odd tick.
    let ax = Axis::generate_axis_on_edges(1000, 1001, Some(1)).unwrap();
    assert_eq!(*ax.blocks_edges(), vec![2000, 2002]);
    assert_eq!(*ax.blocks_centers(), vec![2001]);

    // -10000.0 to 10000.1, step 0.2: spot checks deep inside a long run.
    let ax = Axis::generate_axis_on_edges(-10_000_000, 10_000_100, Some(200)).unwrap();
    assert_eq!((ax.blocks_edges()[50000], ax.blocks_edges()[100000]), (0, 20_000_000));
    assert_eq!((ax.blocks_centers()[49999], ax.blocks_centers()[99999]), (-200, 19_999_800));

    // 1.0 to 4.0 on centers, step 1.0: edges 0.5..4.5, centers 1..4.
    let ax = Axis::generate_axis_on_centers(1000, 4000, Some(1000)).unwrap();
    assert_eq!(*ax.blocks_edges(), vec![1000, 3000, 5000, 7000, 9000]);
    assert_eq!(*ax.blocks_centers(), vec![2000, 4000, 6000, 8000]);

    // 1.0 to 4.5 on centers, default step: same axis as above.
    let ax = Axis::generate_axis_on_centers(1000, 4500, None).unwrap();
    assert_eq!(*ax.blocks_edges(), vec![1000, 3000, 5000, 7000, 9000]);
    assert_eq!(*ax.blocks_centers(), vec![2000, 4000, 6000, 8000]);

    // 1.0 to 5.0 on centers, step 1.3: edges 0.35,1.65,2.95,4.25,5.55.
    let ax = Axis::generate_axis_on_centers(1000, 5000, Some(1300)).unwrap();
    assert_eq!(*ax.blocks_edges(), vec![700, 3300, 5900, 8500, 11100]);
    assert_eq!(*ax.blocks_centers(), vec![2000, 4600, 7200, 9800]);

    // 1.0 to 1.004 on centers, step 0.002: edges on the odd millis.
    let ax = Axis::generate_axis_on_centers(1000, 1004, Some(2)).unwrap();
    assert_eq!(*ax.blocks_edges(), vec![1998, 2002, 2006, 2010]);
    assert_eq!(*ax.blocks_centers(), vec![2000, 2004, 2008]);

    // 10000.0 to 10000.005 on centers, step 0.002.
    let ax = Axis::generate_axis_on_centers(10_000_000, 10_000_005, Some(2)).unwrap();
    assert_eq!(*ax.blocks_edges(), vec![19_999_998, 20_000_002, 20_000_006, 20_000_010]);
    assert_eq!(*ax.blocks_centers(), vec![20_000_000, 20_000_004, 20_000_008]);

    // -10000.0 to 10000.1 on centers, step 0.2: spot checks again.
    let ax = Axis::generate_axis_on_centers(-10_000_000, 10_000_100, Some(200)).unwrap();
    assert_eq!((ax.blocks_edges()[50001], ax.blocks_edges()[100001]), (200, 20_000_200));
    assert_eq!((ax.blocks_centers()[50000], ax.blocks_centers()[100000]), (0, 20_000_000));
}

#[test]
fn axis_from_vec_tests() {
    // Edges 1,2,3,4: centers on the midpoints.
    let vec = vec![1000, 2000, 3000, 4000];
    let ax = Axis::from_vec_as_edges(&vec).unwrap();
    assert_eq!(*ax.blocks_edges(), vec![2000, 4000, 6000, 8000]);
    assert_eq!(*ax.blocks_centers(), vec![3000, 5000, 7000]);

    // Edges 1.0,2.0,3.0,4.5: the last center is 3.75, an odd tick.
    let vec = vec![1000, 2000, 3000, 4500];
    let ax = Axis::from_vec_as_edges(&vec).unwrap();
    assert_eq!(*ax.blocks_edges(), vec![2000, 4000, 6000, 9000]);
    assert_eq!(*ax.blocks_centers(), vec![3000, 5000, 7500]);

    // Edges 1.0 and 1.002: the center is 1.001.
    let vec = vec![1000, 1002];
    let ax = Axis::from_vec_as_edges(&vec).unwrap();
    assert_eq!(*ax.blocks_edges(), vec![2000, 2004]);
    assert_eq!(*ax.blocks_centers(), vec![2002]);

    // Edges 1.0 and 1.00255, the latter rounded to 1.003 before the
    // call: the midpoint 1.0015 rounds away from zero to 1.002.
    let vec = vec![1000, 1003];
    let ax = Axis::from_vec_as_edges(&vec).unwrap();
    assert_eq!(*ax.blocks_edges(), vec![2000, 2006]);
    assert_eq!(*ax.blocks_centers(), vec![2004]);

    // Edges 1,3,4,10: centers 2.0, 3.5, 7.0.
    let vec = vec![1000, 3000, 4000, 10000];
    let ax = Axis::from_vec_as_edges(&vec).unwrap();
    assert_eq!(*ax.blocks_edges(), vec![2000, 6000, 8000, 20000]);
    assert_eq!(*ax.blocks_centers(), vec![4000, 7000, 14000]);

    // Centers 1,2: edges 0.5, 1.5, 2.5.
    let vec = vec![1000, 2000];
    let ax = Axis::from_vec_as_centers(&vec).unwrap();
    assert_eq!(*ax.blocks_edges(), vec![1000, 3000, 5000]);
    assert_eq!(*ax.blocks_centers(), vec![2000, 4000]);

    // Centers 1.5,2.5,3.5: edges on the whole units.
    let vec = vec![1500, 2500, 3500];
    let ax = Axis::from_vec_as_centers(&vec).unwrap();
    assert_eq!(*ax.blocks_edges(), vec![2000, 4000, 6000, 8000]);
    assert_eq!(*ax.blocks_centers(), vec![3000, 5000, 7000]);

    // Centers 1.0 and 1.002: edges 0.999, 1.001, 1.003.
    let vec = vec![1000, 1002];
    let ax = Axis::from_vec_as_centers(&vec).unwrap();
    assert_eq!(*ax.blocks_edges(), vec![1998, 2002, 2006]);
    assert_eq!(*ax.blocks_centers(), vec![2000, 2004]);

    // Centers 1,3,4,10: the outermost edges mirror the first and last
    // interior gaps outward.
    let vec = vec![1000, 3000, 4000, 10000];
    let ax = Axis::from_vec_as_centers(&vec).unwrap();
    assert_eq!(*ax.blocks_edges(), vec![0, 4000, 7000, 14000, 26000]);
    assert_eq!(*ax.blocks_centers(), vec![2000, 6000, 8000, 20000]);
}
