use tiny_nn::{input_grad_shape, output_shape, LayerKind, Shape, ShapeError};

fn xor_stack() -> Vec<LayerKind> {
    vec![
        LayerKind::Dense { input_size: 2, output_size: 4 },
        LayerKind::ReLU,
        LayerKind::Dense { input_size: 4, output_size: 1 },
        LayerKind::Sigmoid,
    ]
}

#[test]
fn dense_forward_maps_width() {
    let d = LayerKind::Dense { input_size: 3, output_size: 5 };
    assert_eq!(d.forward_shape(Shape { rows: 7, cols: 3 }), Ok(Shape { rows: 7, cols: 5 }));
}

#[test]
fn dense_backward_maps_width_back() {
    let d = LayerKind::Dense { input_size: 3, output_size: 5 };
    assert_eq!(d.backward_shape(Shape { rows: 7, cols: 5 }), Ok(Shape { rows: 7, cols: 3 }));
}

#[test]
fn dense_forward_rejects_wrong_width() {
    let d = LayerKind::Dense { input_size: 3, output_size: 5 };
    assert_eq!(
        d.forward_shape(Shape { rows: 2, cols: 4 }),
        Err(ShapeError::DimensionMismatch { layer: 0, expected: 3, found: 4 })
    );
}

#[test]
fn dense_backward_rejects_wrong_width() {
    let d = LayerKind::Dense { input_size: 3, output_size: 5 };
    assert_eq!(
        d.backward_shape(Shape { rows: 2, cols: 3 }),
        Err(ShapeError::DimensionMismatch { layer: 0, expected: 5, found: 3 })
    );
}

#[test]
fn activations_keep_shape() {
    let s = Shape { rows: 4, cols: 9 };
    assert_eq!(LayerKind::Sigmoid.forward_shape(s), Ok(s));
    assert_eq!(LayerKind::ReLU.forward_shape(s), Ok(s));
    assert_eq!(LayerKind::Sigmoid.backward_shape(s), Ok(s));
    assert_eq!(LayerKind::ReLU.backward_shape(s), Ok(s));
}

#[test]
fn dense_shape_invariance_many_sizes() {
    for m in 1..5usize {
        for n in 1..5usize {
            for k in 0..4usize {
                let d = LayerKind::Dense { input_size: m, output_size: n };
                assert_eq!(d.forward_shape(Shape { rows: k, cols: m }), Ok(Shape { rows: k, cols: n }));
                assert_eq!(d.backward_shape(Shape { rows: k, cols: n }), Ok(Shape { rows: k, cols: m }));
            }
        }
    }
}

#[test]
fn xor_stack_output_shape() {
    assert_eq!(output_shape(&xor_stack(), Shape { rows: 8, cols: 2 }), Ok(Shape { rows: 8, cols: 1 }));
}

#[test]
fn xor_stack_input_grad_shape() {
    assert_eq!(input_grad_shape(&xor_stack(), Shape { rows: 8, cols: 1 }), Ok(Shape { rows: 8, cols: 2 }));
}

#[test]
fn empty_stack_is_identity() {
    let s = Shape { rows: 3, cols: 6 };
    assert_eq!(output_shape(&Vec::new(), s), Ok(s));
    assert_eq!(input_grad_shape(&Vec::new(), s), Ok(s));
}

#[test]
fn stack_reports_first_refusing_layer() {
    let layers = vec![
        LayerKind::Dense { input_size: 2, output_size: 4 },
        LayerKind::ReLU,
        LayerKind::Dense { input_size: 3, output_size: 1 },
    ];
    assert_eq!(
        output_shape(&layers, Shape { rows: 5, cols: 2 }),
        Err(ShapeError::DimensionMismatch { layer: 2, expected: 3, found: 4 })
    );
    assert_eq!(
        output_shape(&layers, Shape { rows: 5, cols: 7 }),
        Err(ShapeError::DimensionMismatch { layer: 0, expected: 2, found: 7 })
    );
}

#[test]
fn backward_reports_last_refusing_layer() {
    let layers = vec![
        LayerKind::Dense { input_size: 2, output_size: 4 },
        LayerKind::Sigmoid,
        LayerKind::Dense { input_size: 3, output_size: 1 },
    ];
    assert_eq!(
        input_grad_shape(&layers, Shape { rows: 5, cols: 1 }),
        Err(ShapeError::DimensionMismatch { layer: 0, expected: 4, found: 3 })
    );
    assert_eq!(
        input_grad_shape(&layers, Shape { rows: 5, cols: 2 }),
        Err(ShapeError::DimensionMismatch { layer: 2, expected: 1, found: 2 })
    );
}

#[test]
fn backward_mirrors_forward_on_xor_stack() {
    let x = Shape { rows: 13, cols: 2 };
    let y = output_shape(&xor_stack(), x).unwrap();
    assert_eq!(input_grad_shape(&xor_stack(), y), Ok(x));
}
