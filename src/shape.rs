use vstd::prelude::*;

verus! {

/// The shape of a batch tensor: one row per sample, one column per feature.
#[derive(Clone, Copy, Debug, PartialEq, Eq, Structural)]
pub struct Shape {
    pub rows: usize,
    pub cols: usize,
}

/// The closed set of layer variants, reduced to what decides shapes.
/// A dense layer maps `input_size` features to `output_size` features;
/// the activations act elementwise and keep the shape.
#[derive(Clone, Copy, Debug, PartialEq, Eq, Structural)]
pub enum LayerKind {
    Dense { input_size: usize, output_size: usize },
    Sigmoid,
    ReLU,
}

/// A batch whose width does not match what a layer expects.
#[derive(Clone, Copy, Debug, PartialEq, Eq, Structural)]
pub enum ShapeError {
    /// `layer` is the position in the stack (0 for a single layer).
    DimensionMismatch { layer: usize, expected: usize, found: usize },
}

/// Output shape of `kind` on an input of shape `x`, or `None` when the widths disagree.
pub open spec fn forward_shape_of(kind: LayerKind, x: Shape) -> Option<Shape> {
    match kind {
        LayerKind::Dense { input_size, output_size } => if x.cols == input_size {
            Some(Shape { rows: x.rows, cols: output_size })
        } else {
            None
        },
        _ => Some(x),
    }
}

/// Shape of the input gradient of `kind` given an output gradient of shape `g`.
pub open spec fn backward_shape_of(kind: LayerKind, g: Shape) -> Option<Shape> {
    match kind {
        LayerKind::Dense { input_size, output_size } => if g.cols == output_size {
            Some(Shape { rows: g.rows, cols: input_size })
        } else {
            None
        },
        _ => Some(g),
    }
}

/// What a single layer at position `layer` of a stack makes of an input of shape `x`.
pub open spec fn forward_result(kind: LayerKind, layer: usize, x: Shape) -> Result<Shape, ShapeError> {
    match forward_shape_of(kind, x) {
        Some(y) => Ok(y),
        None => Err(
            ShapeError::DimensionMismatch { layer, expected: kind.expected_in().unwrap(), found: x.cols },
        ),
    }
}

/// What a single layer at position `layer` makes of an output gradient of shape `g`.
pub open spec fn backward_result(kind: LayerKind, layer: usize, g: Shape) -> Result<Shape, ShapeError> {
    match backward_shape_of(kind, g) {
        Some(h) => Ok(h),
        None => Err(
            ShapeError::DimensionMismatch { layer, expected: kind.expected_out().unwrap(), found: g.cols },
        ),
    }
}

/// Forward composition: each layer's output is the next layer's input,
/// and the first layer that refuses its input reports the error.
pub open spec fn pipeline_forward(layers: Seq<LayerKind>, x: Shape) -> Result<Shape, ShapeError>
    decreases layers.len(),
{
    if layers.len() == 0 {
        Ok(x)
    } else {
        match pipeline_forward(layers.drop_last(), x) {
            Ok(y) => forward_result(layers.last(), (layers.len() - 1) as usize, y),
            Err(e) => Err(e),
        }
    }
}

/// Backward composition: the gradient runs through the layers in reverse
/// order, each one handing its input gradient to the layer before it.
pub open spec fn pipeline_backward(layers: Seq<LayerKind>, g: Shape) -> Result<Shape, ShapeError>
    decreases layers.len(),
{
    if layers.len() == 0 {
        Ok(g)
    } else {
        match backward_result(layers.last(), (layers.len() - 1) as usize, g) {
            Ok(h) => pipeline_backward(layers.drop_last(), h),
            Err(e) => Err(e),
        }
    }
}

impl LayerKind {
    /// Width the layer expects of its input, if it fixes one.
    pub open spec fn expected_in(self) -> Option<usize> {
        match self {
            LayerKind::Dense { input_size, .. } => Some(input_size),
            _ => None,
        }
    }

    /// Width the layer expects of its output gradient, if it fixes one.
    pub open spec fn expected_out(self) -> Option<usize> {
        match self {
            LayerKind::Dense { output_size, .. } => Some(output_size),
            _ => None,
        }
    }

    /// Shape of the forward output on a batch of shape `x`.
    pub fn forward_shape(&self, x: Shape) -> (r: Result<Shape, ShapeError>)
        ensures
            r == forward_result(*self, 0, x),
    {
        match *self {
            LayerKind::Dense { input_size, output_size } => {
                if x.cols == input_size {
                    Ok(Shape { rows: x.rows, cols: output_size })
                } else {
                    Err(ShapeError::DimensionMismatch { layer: 0, expected: input_size, found: x.cols })
                }
            },
            _ => Ok(x),
        }
    }

    /// Shape of the input gradient given an output gradient of shape `grad`.
    pub fn backward_shape(&self, grad: Shape) -> (r: Result<Shape, ShapeError>)
        ensures
            r == backward_result(*self, 0, grad),
    {
        match *self {
            LayerKind::Dense { input_size, output_size } => {
                if grad.cols == output_size {
                    Ok(Shape { rows: grad.rows, cols: input_size })
                } else {
                    Err(ShapeError::DimensionMismatch { layer: 0, expected: output_size, found: grad.cols })
                }
            },
            _ => Ok(grad),
        }
    }
}

/// Shape of the output of a stack of layers on a batch of shape `x`, or the
/// first layer whose expected input width the batch does not have.
pub fn output_shape(layers: &Vec<LayerKind>, x: Shape) -> (r: Result<Shape, ShapeError>)
    ensures
        r == pipeline_forward(layers@, x),
{
    let mut cur = x;
    let mut i: usize = 0;
    while i < layers.len()
        invariant
            i <= layers@.len(),
            pipeline_forward(layers@.take(i as int), x) == Ok::<Shape, ShapeError>(cur),
        decreases layers@.len() - i,
    {
        let kind = layers[i];
        assert(layers@.take(i + 1).drop_last() == layers@.take(i as int));
        match kind {
            LayerKind::Dense { input_size, output_size } => {
                if cur.cols != input_size {
                    proof {
                        lemma_forward_error_persists(layers@, x, i as int + 1);
                    }
                    return Err(ShapeError::DimensionMismatch { layer: i, expected: input_size, found: cur.cols });
                }
                cur = Shape { rows: cur.rows, cols: output_size };
            },
            _ => {},
        }
        i = i + 1;
    }
    assert(layers@.take(layers@.len() as int) == layers@);
    Ok(cur)
}

/// Shape of the gradient with respect to the input of a stack of layers, given
/// the gradient of shape `grad` with respect to its output, or the last layer
/// (the first one the gradient reaches) that refuses it.
pub fn input_grad_shape(layers: &Vec<LayerKind>, grad: Shape) -> (r: Result<Shape, ShapeError>)
    ensures
        r == pipeline_backward(layers@, grad),
{
    let mut cur = grad;
    let mut i: usize = layers.len();
    assert(layers@.take(i as int) == layers@);
    while i > 0
        invariant
            i <= layers@.len(),
            pipeline_backward(layers@, grad) == pipeline_backward(layers@.take(i as int), cur),
        decreases i,
    {
        let kind = layers[i - 1];
        assert(layers@.take(i as int).drop_last() == layers@.take(i - 1));
        match kind {
            LayerKind::Dense { input_size, output_size } => {
                if cur.cols != output_size {
                    return Err(
                        ShapeError::DimensionMismatch { layer: i - 1, expected: output_size, found: cur.cols },
                    );
                }
                cur = Shape { rows: cur.rows, cols: input_size };
            },
            _ => {},
        }
        i = i - 1;
    }
    Ok(cur)
}

/// A dense layer with `input_size = m` and `output_size = n` turns a batch of
/// shape `(k, m)` into one of shape `(k, n)`, and a gradient of shape `(k, n)`
/// into an input gradient of shape `(k, m)`.
pub proof fn lemma_dense_shape_invariance(m: usize, n: usize, k: usize)
    ensures
        forward_shape_of(LayerKind::Dense { input_size: m, output_size: n }, Shape { rows: k, cols: m })
            == Some(Shape { rows: k, cols: n }),
        backward_shape_of(LayerKind::Dense { input_size: m, output_size: n }, Shape { rows: k, cols: n })
            == Some(Shape { rows: k, cols: m }),
{
}

/// Whenever a stack of layers accepts a batch of shape `x` and yields shape
/// `y`, a gradient of shape `y` runs back through the whole stack and comes
/// out with the shape `x` of the input.
pub proof fn lemma_backward_mirrors_forward(layers: Seq<LayerKind>, x: Shape, y: Shape)
    requires
        pipeline_forward(layers, x) == Ok::<Shape, ShapeError>(y),
    ensures
        pipeline_backward(layers, y) == Ok::<Shape, ShapeError>(x),
    decreases layers.len(),
{
    if layers.len() > 0 {
        let z = pipeline_forward(layers.drop_last(), x).unwrap();
        lemma_backward_mirrors_forward(layers.drop_last(), x, z);
    }
}

/// Once a prefix of the stack refuses the input, the whole stack does, with the same error.
proof fn lemma_forward_error_persists(layers: Seq<LayerKind>, x: Shape, k: int)
    requires
        0 <= k <= layers.len(),
        pipeline_forward(layers.take(k), x) is Err,
    ensures
        pipeline_forward(layers, x) == pipeline_forward(layers.take(k), x),
    decreases layers.len() - k,
{
    if k < layers.len() {
        assert(layers.take(k + 1).drop_last() == layers.take(k));
        lemma_forward_error_persists(layers, x, k + 1);
    } else {
        assert(layers.take(k) == layers);
    }
}

} // verus!
