//! Model assembly end to end, and the JSON export of the border stack.

use grunt::Axis;
use grunt::BorderType;
use grunt::BordersParams;
use grunt::FillValues;
use grunt::Model3D;
use grunt::Params3D;
use grunt::RandomSource;
use grunt::export_border_num;
use grunt::generate_borders;
use grunt::generate_model3d;
use grunt::generate_model3d_validated;
use grunt::validate_layer;
use std::sync::Arc;

fn square_params(blocks: i64, borders: BordersParams) -> Arc<Params3D> {
    let axis = Arc::new(Axis::generate_axis_on_edges(0, blocks * 1000, Some(1000)).unwrap());
    Params3D::new(axis.clone(), axis, Arc::new(borders), Arc::new(vec![FillValues::default()]))
}

#[test]
fn walk_model_is_validator_clean() {
    // Three bounded-walk layers over a 14 x 14 grid, each against its
    // own limit pair, the single policy reused by wraparound.
    let types = vec![BorderType::RandomWithStep(3, 1000)];
    let limits = vec![[35u32, 89u32], [75, 114], [95, 129]];
    let bp = BordersParams::new(3, &types, &limits).unwrap();
    let params = square_params(14, bp);
    let mut rng = RandomSource::from_seed(2024);
    let (model, reports) = generate_model3d_validated(params, &mut rng, true).unwrap();
    assert_eq!(model.borders().len(), 3);
    assert_eq!(reports.len(), 3);
    for (k, layer) in model.borders().iter().enumerate() {
        assert_eq!(layer.len(), 14);
        for row in layer {
            assert_eq!(row.len(), 14);
        }
        assert!(validate_layer(layer, limits[k], Some(3)).is_ok());
        assert!(reports[k].is_empty());
    }
}

#[test]
fn model_layers_follow_wrapped_limits() {
    // Five layers from two limit pairs and two policies: layer k reads
    // entry k modulo the list length of each.
    let types = vec![BorderType::Random, BorderType::RandomWithStep(2, 500)];
    let limits = vec![[10u32, 20u32], [100, 130]];
    let bp = BordersParams::new(5, &types, &limits).unwrap();
    let params = square_params(4, bp);
    let mut rng = RandomSource::from_seed(7);
    let model = generate_model3d(params, &mut rng);
    assert_eq!(model.borders().len(), 5);
    for (k, layer) in model.borders().iter().enumerate() {
        let lim = limits[k % 2];
        for row in layer {
            for &v in row {
                assert!(lim[0] <= v && v <= lim[1]);
            }
        }
    }
}

#[test]
fn warn_mode_keeps_every_layer() {
    // A one-row grid cannot be validated, but without aborting the
    // assembly still returns the model, each layer with its findings.
    let types = vec![BorderType::Random];
    let limits = vec![[1u32, 5u32]];
    let bp = BordersParams::new(2, &types, &limits).unwrap();
    let axis_x = Arc::new(Axis::generate_axis_on_edges(0, 3000, Some(1000)).unwrap());
    let axis_y = Arc::new(Axis::generate_axis_on_edges(0, 1000, Some(1000)).unwrap());
    let params = Params3D::new(axis_x, axis_y, Arc::new(bp), Arc::new(vec![]));
    let mut rng = RandomSource::from_seed(3);
    let (model, reports) = generate_model3d_validated(params, &mut rng, false).unwrap();
    assert_eq!(model.borders().len(), 2);
    assert_eq!(reports.len(), 2);
    for report in &reports {
        assert_eq!(*report, vec![grunt::Violation::LayerTooSmall]);
    }
}

#[test]
fn direct_border_generation_matches_params() {
    let types = vec![BorderType::Random];
    let limits = vec![[3u32, 4u32]];
    let bp = BordersParams::new(4, &types, &limits).unwrap();
    let params = square_params(5, bp);
    let mut rng = RandomSource::from_seed(1);
    let borders = generate_borders(&params, &mut rng);
    assert_eq!(borders.len(), 4);
    for layer in &borders {
        assert_eq!(layer.len(), 5);
        for row in layer {
            assert_eq!(row.len(), 5);
            for &v in row {
                assert!(v == 3 || v == 4);
            }
        }
    }
}

#[test]
fn border_stack_renders_as_json() {
    let borders = vec![vec![vec![1u32, 2], vec![3, 4]], vec![vec![70u32, 0, 305]]];
    let mut out: Vec<u8> = Vec::new();
    export_border_num(&mut out, &borders);
    assert_eq!(
        String::from_utf8(out).unwrap(),
        "[{\"bo0\":[{\"y0\":[1,2]},{\"y1\":[3,4]}]},{\"bo1\":[{\"y0\":[70,0,305]}]}]"
    );

    let empty: Vec<Vec<Vec<u32>>> = vec![];
    let mut out: Vec<u8> = Vec::new();
    export_border_num(&mut out, &empty);
    assert_eq!(String::from_utf8(out).unwrap(), "[]");
}

#[test]
fn export_document_sections_toggle() {
    let types = vec![BorderType::Random];
    let limits = vec![[1u32, 1u32]];
    let bp = BordersParams::new(1, &types, &limits).unwrap();
    let params = square_params(2, bp);
    let mut rng = RandomSource::from_seed(0);
    let model = generate_model3d(params, &mut rng);

    let out = model.export_model(None, true);
    assert_eq!(
        String::from_utf8(out).unwrap(),
        "{\"params3D\":null,\"borders\":[{\"bo0\":[{\"y0\":[1,1]},{\"y1\":[1,1]}]}]}"
    );

    let section = b"{\"kept\":true}".to_vec();
    let out = model.export_model(Some(&section), false);
    assert_eq!(
        String::from_utf8(out).unwrap(),
        "{\"params3D\":{\"kept\":true},\"borders\":null}"
    );
}

#[test]
fn model_accessors_share_the_snapshot() {
    let types = vec![BorderType::Random];
    let limits = vec![[2u32, 9u32]];
    let bp = BordersParams::new(1, &types, &limits).unwrap();
    let params = square_params(3, bp);
    let mut rng = RandomSource::from_seed(12);
    let model = generate_model3d(params.clone(), &mut rng);
    assert_eq!(
        model.params().borders().number_of_borders(),
        params.borders().number_of_borders()
    );
    let by_field: &Vec<Vec<Vec<u32>>> = &model.borders;
    assert_eq!(model.borders(), by_field);
    let _ = Model3D { params: model.params().clone(), borders: model.borders().clone() };
}
