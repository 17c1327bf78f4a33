//! The gates of the recurrence: how strongly each token is written, and how fast the state decays.
use vstd::prelude::*;
use candle_core::Tensor;
use crate::candle::{
    added, converted, is, multiplied, plus, rounded, sigmoid_of, tensor_view, times,
};
use crate::coords::{
    lemma_at1, lemma_at3, lemma_converted_at, lemma_in_range1, lemma_in_range3, lemma_zipped_at, rounded_elem,
};
use crate::error::ModelError;
use crate::linear_attention::LinearAttention;
use crate::ops;
use crate::ops::{broadcasts, sigmoids};
use crate::shape::{extent, lemma_position_bounds, MAX_ELEMENTS};
use crate::view::{broadcast_dims, broadcast_source, Dtype, TensorView};

verus! {

/// One number for each head, as it is broadcast to all tokens.
pub open spec fn per_head(v: TensorView) -> TensorView {
    converted(v, Dtype::F32).unsqueezed(0).unsqueezed(0)
}

/// The tensor as single-precision numbers, with two dimensions in front.
fn spread(x: &Tensor) -> (r: Result<Tensor, ModelError>)
    requires
        tensor_view(*x).fits(),
    ensures
        match r {
            Ok(o) => is(o, per_head(tensor_view(*x))),
            Err(_) => !tensor_view(*x).dtype.floating(),
        },
{
    let single = ops::to_dtype(x, Dtype::F32)?;
    let once = ops::unsqueeze(&single, 0)?;
    ops::unsqueeze(&once, 0)
}

impl LinearAttention {
    /// What the softplus is taken of: the decay input plus the bias of its head.
    pub open spec fn biased(self, a: TensorView) -> TensorView {
        added(converted(a, Dtype::F32), per_head(tensor_view(self.dt_bias)))
    }

    /// The decay: the factor of each head times the softplus.
    pub open spec fn decay(self, activated: TensorView, dtype: Dtype) -> TensorView {
        converted(multiplied(per_head(tensor_view(self.a)), activated), dtype)
    }

    /// What the softplus is to be taken of, in single precision.
    pub fn softplus_input(&self, a: &Tensor) -> (r: Result<Tensor, ModelError>)
        requires
            tensor_view(*a).fits(),
            tensor_view(self.dt_bias).fits(),
        ensures
            match r {
                Ok(o) => broadcasts(
                    tensor_view(*a).dims,
                    per_head(tensor_view(self.dt_bias)).dims,
                ) && is(o, self.biased(tensor_view(*a))),
                Err(_) => !(broadcasts(
                    tensor_view(*a).dims,
                    per_head(tensor_view(self.dt_bias)).dims,
                ) && tensor_view(*a).dtype.floating() && tensor_view(
                    self.dt_bias,
                ).dtype.floating()),
            },
    {
        let single = ops::to_dtype(a, Dtype::F32)?;
        let bias = spread(&self.dt_bias)?;
        ops::broadcast_add(&single, &bias)
    }

    /// The strength of each update, `sigmoid(b)`, and the decay, `a * softplus(alpha + dt_bias)`, in
    /// type `dtype`. `activated` is the softplus; the layer's `a` holds `-exp(a_log)`.
    pub fn compute_beta_g_cpu(&self, b: &Tensor, activated: &Tensor, dtype: Dtype) -> (r: Result<
        (Tensor, Tensor),
        ModelError,
    >)
        requires
            tensor_view(*b).fits(),
            tensor_view(*activated).fits(),
            tensor_view(self.a).fits(),
        ensures
            match r {
                Ok((beta, g)) => {
                    &&& broadcasts(
                        per_head(tensor_view(self.a)).dims,
                        tensor_view(*activated).dims,
                    )
                    &&& is(beta, sigmoids(tensor_view(*b)))
                    &&& is(g, self.decay(tensor_view(*activated), dtype))
                },
                Err(_) => !(broadcasts(
                    per_head(tensor_view(self.a)).dims,
                    tensor_view(*activated).dims,
                ) && tensor_view(*b).dtype.sigmoidal() && tensor_view(*activated).dtype == Dtype::F32
                    && tensor_view(self.a).dtype.floating() && dtype.floating()),
            },
    {
        let beta = ops::sigmoid(b)?;
        let factor = spread(&self.a)?;
        let product = ops::broadcast_mul(&factor, activated)?;
        let g = ops::to_dtype(&product, dtype)?;
        Ok((beta, g))
    }
}

/// One number for each head can be broadcast to all tokens.
pub proof fn lemma_per_head_broadcasts(v: TensorView, dims: Seq<nat>)
    requires
        v.dims.len() == 1,
        dims.len() == 3,
        dims[2] == v.dims[0],
    ensures
        per_head(v).dims == seq![1, 1, v.dims[0]],
        broadcast_dims(dims, per_head(v).dims) == dims,
        broadcast_dims(per_head(v).dims, dims) == dims,
        extent(dims) <= MAX_ELEMENTS ==> broadcasts(dims, per_head(v).dims) && broadcasts(
            per_head(v).dims,
            dims,
        ),
{
    let p = per_head(v);
    assert(p.dims =~= seq![1, 1, v.dims[0]]);
    assert(broadcast_dims(dims, p.dims) =~= dims);
    assert(broadcast_dims(p.dims, dims) =~= dims);
}

proof fn lemma_per_head(v: TensorView, dims: Seq<nat>, b: int, t: int, h: int)
    requires
        v.dims.len() == 1,
        v.fits(),
        dims.len() == 3,
        dims[2] == v.dims[0],
        0 <= b < dims[0],
        0 <= t < dims[1],
        0 <= h < dims[2],
    ensures
        per_head(v).dims == seq![1, 1, v.dims[0]],
        per_head(v).at(broadcast_source(per_head(v).dims, seq![b, t, h])) == rounded_elem(
            v,
            Dtype::F32,
            v.at(seq![h]),
        ),
        broadcast_source(dims, seq![b, t, h]) == seq![b, t, h],
        broadcast_dims(dims, per_head(v).dims) == dims,
        broadcast_dims(per_head(v).dims, dims) == dims,
        extent(dims) <= MAX_ELEMENTS ==> broadcasts(dims, per_head(v).dims) && broadcasts(
            per_head(v).dims,
            dims,
        ),
{
    let p = per_head(v);
    let at = seq![b, t, h];
    lemma_per_head_broadcasts(v, dims);
    assert(broadcast_source(dims, at) =~= at);
    assert(broadcast_source(p.dims, at) =~= seq![0, 0, h]);
    lemma_in_range1(v.dims, h);
    lemma_converted_at(v, Dtype::F32, seq![h]);
    lemma_at3(p, 0, 0, h);
    assert((0 * p.dims[1] + 0) * p.dims[2] + h == h) by (nonlinear_arith);
    lemma_position_bounds(v.dims, seq![h]);
    assert(crate::shape::position(v.dims, seq![h]) == h) by {
        reveal_with_fuel(crate::shape::position, 2);
        assert(v.dims.drop_last() =~= Seq::<nat>::empty());
    }
}

/// The input of the softplus at a token and a head is the decay input there plus the bias of that
/// head.
pub proof fn law_softplus_input(layer: LinearAttention, a: TensorView, b: int, t: int, h: int)
    requires
        a.fits(),
        a.dims.len() == 3,
        tensor_view(layer.dt_bias).fits(),
        tensor_view(layer.dt_bias).dims == seq![a.dims[2]],
        0 <= b < a.dims[0],
        0 <= t < a.dims[1],
        0 <= h < a.dims[2],
    ensures
        broadcasts(a.dims, per_head(tensor_view(layer.dt_bias)).dims),
        layer.biased(a).dims == a.dims,
        layer.biased(a).at3(b, t, h) == plus(
            a.device,
            Dtype::F32,
            rounded_elem(a, Dtype::F32, a.at3(b, t, h)),
            rounded_elem(
                tensor_view(layer.dt_bias),
                Dtype::F32,
                tensor_view(layer.dt_bias).at(seq![h]),
            ),
        ),
{
    let bias = tensor_view(layer.dt_bias);
    let single = converted(a, Dtype::F32);
    lemma_per_head(bias, a.dims, b, t, h);
    lemma_in_range3(a.dims, b, t, h);
    lemma_converted_at(a, Dtype::F32, seq![b, t, h]);
    lemma_zipped_at(
        single,
        per_head(bias),
        |x: int, y: int| plus(single.device, single.dtype, x, y),
        seq![b, t, h],
    );
}

/// The decay at a token and a head is the factor of that head times the softplus there.
pub proof fn law_decay(
    layer: LinearAttention,
    activated: TensorView,
    dtype: Dtype,
    b: int,
    t: int,
    h: int,
)
    requires
        activated.fits(),
        activated.dims.len() == 3,
        tensor_view(layer.a).fits(),
        tensor_view(layer.a).dims == seq![activated.dims[2]],
        0 <= b < activated.dims[0],
        0 <= t < activated.dims[1],
        0 <= h < activated.dims[2],
    ensures
        broadcasts(per_head(tensor_view(layer.a)).dims, activated.dims),
        layer.decay(activated, dtype).dims == activated.dims,
        layer.decay(activated, dtype).dtype == dtype,
        layer.decay(activated, dtype).at3(b, t, h) == {
            let a = tensor_view(layer.a);
            let g = times(
                a.device,
                Dtype::F32,
                rounded_elem(a, Dtype::F32, a.at(seq![h])),
                activated.at3(b, t, h),
            );
            if dtype == Dtype::F32 {
                g
            } else {
                rounded(a.device, Dtype::F32, dtype, g)
            }
        },
{
    let a = tensor_view(layer.a);
    let f = per_head(a);
    lemma_per_head(a, activated.dims, b, t, h);
    lemma_in_range3(activated.dims, b, t, h);
    lemma_zipped_at(
        f,
        activated,
        |x: int, y: int| times(f.device, f.dtype, x, y),
        seq![b, t, h],
    );
    lemma_converted_at(multiplied(f, activated), dtype, seq![b, t, h]);
}

/// What a call gives: the strength is the sigmoid of `b`, number by number, and the decay at a token and a
/// head is the factor of that head times the softplus there, in type `dtype`.
pub proof fn law_gating_values(
    layer: LinearAttention,
    b: Tensor,
    activated: Tensor,
    dtype: Dtype,
    r: Result<(Tensor, Tensor), ModelError>,
    i: int,
    t: int,
    h: int,
    p: int,
)
    requires
        tensor_view(b).fits(),
        tensor_view(activated).fits(),
        tensor_view(layer.a).fits(),
        tensor_view(activated).dims.len() == 3,
        tensor_view(layer.a).dims == seq![tensor_view(activated).dims[2]],
        call_ensures(LinearAttention::compute_beta_g_cpu, (&layer, &b, &activated, dtype), r),
        0 <= i < tensor_view(activated).dims[0],
        0 <= t < tensor_view(activated).dims[1],
        0 <= h < tensor_view(activated).dims[2],
        0 <= p < tensor_view(b).elems.len(),
    ensures
        call_requires(LinearAttention::compute_beta_g_cpu, (&layer, &b, &activated, dtype)),
        tensor_view(b).dtype.sigmoidal() && tensor_view(activated).dtype == Dtype::F32
            && tensor_view(layer.a).dtype.floating() && dtype.floating() ==> r is Ok,
        r is Ok ==> {
            let (x, s, a) = (tensor_view(b), tensor_view(activated), tensor_view(layer.a));
            let (beta, g) = (tensor_view(r->Ok_0.0), tensor_view(r->Ok_0.1));
            let factor = rounded_elem(a, Dtype::F32, a.elems[h]);
            let product = times(a.device, Dtype::F32, factor, s.at3(i, t, h));
            &&& beta.dims == x.dims && beta.dtype == x.dtype && beta.device == x.device
            &&& beta.elems[p] == sigmoid_of(x.device, x.dtype, x.elems[p])
            &&& g.dims == s.dims && g.dtype == dtype && g.device == a.device
            &&& g.at3(i, t, h) == if dtype == Dtype::F32 {
                product
            } else {
                rounded(a.device, Dtype::F32, dtype, product)
            }
        },
{
    law_decay(layer, tensor_view(activated), dtype, i, t, h);
    lemma_at1(tensor_view(layer.a), h);
}

/// What a call gives: at a token and a head, the decay input there plus the bias of that head, in single
/// precision.
pub proof fn law_biased_values(
    layer: LinearAttention,
    a: Tensor,
    r: Result<Tensor, ModelError>,
    i: int,
    t: int,
    h: int,
)
    requires
        tensor_view(a).fits(),
        tensor_view(layer.dt_bias).fits(),
        tensor_view(a).dims.len() == 3,
        tensor_view(layer.dt_bias).dims == seq![tensor_view(a).dims[2]],
        call_ensures(LinearAttention::softplus_input, (&layer, &a), r),
        0 <= i < tensor_view(a).dims[0],
        0 <= t < tensor_view(a).dims[1],
        0 <= h < tensor_view(a).dims[2],
    ensures
        call_requires(LinearAttention::softplus_input, (&layer, &a)),
        tensor_view(a).dtype.floating() && tensor_view(layer.dt_bias).dtype.floating() ==> r is Ok,
        r is Ok ==> {
            let (v, bias, o) = (
                tensor_view(a),
                tensor_view(layer.dt_bias),
                tensor_view(r->Ok_0),
            );
            &&& o.dims == v.dims && o.dtype == Dtype::F32 && o.device == v.device
            &&& o.at3(i, t, h) == plus(
                v.device,
                Dtype::F32,
                rounded_elem(v, Dtype::F32, v.at3(i, t, h)),
                rounded_elem(bias, Dtype::F32, bias.elems[h]),
            )
        },
{
    law_softplus_input(layer, tensor_view(a), i, t, h);
    lemma_at1(tensor_view(layer.dt_bias), h);
}

} // verus!
