//! The feed-forward block: SwiGLU.
use vstd::prelude::*;
use candle_core::Tensor;
use crate::candle::{is, multiplied, packed, silu_of, tensor_packed, tensor_view, times};
use crate::coords::{lemma_in_range3, lemma_mapped_at, lemma_zipped_elems, lemma_zipped_same};
use crate::error::ModelError;
use crate::linear::Linear;
use crate::ops;
use crate::ops::silus;
use crate::view::TensorView;

verus! {

/// The weights of the feed-forward block.
pub struct Mlp {
    pub gate: Linear,
    pub down: Linear,
    pub up: Linear,
}

/// The SiLU of `gate` times the values, element by element.
pub open spec fn swiglu(gate: TensorView, up: TensorView) -> TensorView {
    multiplied(silus(gate), up)
}

/// `silu(gate) * up`, for tensors of one shape.
pub fn gate_and_multiply(gate: &Tensor, up: &Tensor) -> (r: Result<Tensor, ModelError>)
    requires
        tensor_view(*gate).fits(),
        tensor_view(*up).fits(),
    ensures
        match r {
            Ok(o) => tensor_view(*gate).dims == tensor_view(*up).dims && is(
                o,
                swiglu(tensor_view(*gate), tensor_view(*up)),
            ) && packed(o),
            Err(_) => !(tensor_view(*gate).dims == tensor_view(*up).dims && tensor_view(*gate).dtype
                == tensor_view(*up).dtype && tensor_view(*gate).dtype.floating()),
        },
{
    let act = ops::silu(gate)?;
    ops::multiply(&act, up)
}

impl Mlp {
    /// The weights are sound.
    pub open spec fn sound(self) -> bool {
        self.gate.sound() && self.down.sound() && self.up.sound()
    }

    /// The weights are sound, and the block can be run.
    pub open spec fn wf(self) -> bool {
        self.gate.wf() && self.down.wf() && self.up.wf()
    }

    /// Whether a block with sound weights can be run.
    pub fn is_runnable(&self) -> (r: bool)
        requires
            self.sound(),
        ensures
            r == self.wf(),
    {
        self.gate.is_runnable() && self.down.is_runnable() && self.up.is_runnable()
    }

    /// The values between the linear maps.
    pub open spec fn inner(self, x: TensorView) -> TensorView {
        swiglu(self.gate.applied(x), self.up.applied(x))
    }

    /// What the block makes of `x`.
    pub open spec fn fed(self, x: TensorView) -> TensorView {
        self.down.applied(self.inner(x))
    }

    /// The inputs on which the block works.
    pub open spec fn ready(self, x: Tensor) -> bool {
        &&& self.gate.ready(x)
        &&& self.up.ready(x)
        &&& self.gate.weight().dims[0] == self.up.weight().dims[0]
        &&& self.down.takes(self.inner(tensor_view(x)))
    }

    /// `down(silu(gate(x)) * up(x))`.
    pub fn forward(&self, x: &Tensor) -> (r: Result<Tensor, ModelError>)
        requires
            self.wf(),
            tensor_view(*x).fits(),
        ensures
            match r {
                Ok(o) => {
                    &&& self.ready(*x)
                    &&& self.gate.applied(tensor_view(*x)).fits()
                    &&& self.up.applied(tensor_view(*x)).fits()
                    &&& is(o, self.fed(tensor_view(*x)))
                    &&& tensor_packed(o)
                },
                Err(_) => !self.ready(*x),
            },
    {
        let gate = self.gate.forward(x)?;
        let up = self.up.forward(x)?;
        let y = gate_and_multiply(&gate, &up)?;
        proof {
            let g = tensor_view(gate);
            let u = tensor_view(up);
            let last = g.dims.len() - 1;
            assert(g.dims[last] == u.dims[last]);
        }
        self.down.forward(&y)
    }
}

/// Each value between the linear maps is the SiLU of one of `gate` times one of `up`.
pub proof fn law_swiglu(gate: TensorView, up: TensorView, b: int, t: int, i: int)
    requires
        gate.fits(),
        up.fits(),
        gate.dims.len() == 3,
        gate.dims == up.dims,
        0 <= b < gate.dims[0],
        0 <= t < gate.dims[1],
        0 <= i < gate.dims[2],
    ensures
        swiglu(gate, up).dims == gate.dims,
        swiglu(gate, up).at3(b, t, i) == times(
            gate.device,
            gate.dtype,
            silu_of(gate.device, gate.dtype, gate.at3(b, t, i)),
            up.at3(b, t, i),
        ),
{
    let a = silus(gate);
    lemma_in_range3(gate.dims, b, t, i);
    lemma_mapped_at(gate, |x: int| silu_of(gate.device, gate.dtype, x), seq![b, t, i]);
    lemma_zipped_same(a, up, |p: int, q: int| times(a.device, a.dtype, p, q));
}

/// What a call gives, place by place, for tensors of any shape: the SiLU of the one times the other.
pub proof fn law_gated_product(gate: Tensor, up: Tensor, r: Result<Tensor, ModelError>, p: int)
    requires
        tensor_view(gate).fits(),
        tensor_view(up).fits(),
        tensor_view(gate).dims == tensor_view(up).dims,
        call_ensures(gate_and_multiply, (&gate, &up), r),
        0 <= p < tensor_view(gate).elems.len(),
    ensures
        call_requires(gate_and_multiply, (&gate, &up)),
        tensor_view(gate).dtype == tensor_view(up).dtype && tensor_view(gate).dtype.floating()
            ==> r is Ok,
        r is Ok ==> {
            let (g, u, o) = (tensor_view(gate), tensor_view(up), tensor_view(r->Ok_0));
            &&& o.fits()
            &&& o.dims == g.dims
            &&& o.dtype == g.dtype
            &&& o.device == g.device
            &&& o.elems[p] == times(
                g.device,
                g.dtype,
                silu_of(g.device, g.dtype, g.elems[p]),
                u.elems[p],
            )
        },
{
    let (g, u) = (tensor_view(gate), tensor_view(up));
    let a = silus(g);
    lemma_zipped_elems(a, u, |x: int, y: int| times(a.device, a.dtype, x, y));
}

/// What the block gives: with `inner` the SiLU of what `gate` makes of the input times what `up` makes of
/// it, place by place, that which `down` makes of `inner`.
pub proof fn law_block_values(
    mlp: Mlp,
    x: Tensor,
    r: Result<Tensor, ModelError>,
    inner: TensorView,
)
    requires
        mlp.wf(),
        tensor_view(x).fits(),
        call_ensures(Mlp::forward, (&mlp, &x), r),
        ({
            let (g, u) = (mlp.gate.applied(tensor_view(x)), mlp.up.applied(tensor_view(x)));
            &&& inner.dims == g.dims
            &&& inner.dtype == g.dtype
            &&& inner.device == g.device
            &&& inner.elems.len() == g.elems.len()
            &&& forall|p: int|
                0 <= p < g.elems.len() ==> #[trigger] inner.elems[p] == times(
                    g.device,
                    g.dtype,
                    silu_of(g.device, g.dtype, g.elems[p]),
                    u.elems[p],
                )
        }),
    ensures
        call_requires(Mlp::forward, (&mlp, &x)),
        r is Ok ==> tensor_view(r->Ok_0) == mlp.down.applied(inner) && mlp.gate.ready(x)
            && mlp.up.ready(x) && mlp.gate.weight().dims[0] == mlp.up.weight().dims[0],
        mlp.gate.ready(x) && mlp.up.ready(x) && mlp.gate.weight().dims[0]
            == mlp.up.weight().dims[0] && mlp.gate.applied(tensor_view(x)).fits()
            && mlp.up.applied(tensor_view(x)).fits() && mlp.down.takes(inner) ==> r is Ok,
{
    let v = tensor_view(x);
    let (g, u) = (mlp.gate.applied(v), mlp.up.applied(v));
    lemma_fed(mlp, v, inner);
    if mlp.gate.ready(x) && mlp.up.ready(x) && mlp.gate.weight().dims[0]
        == mlp.up.weight().dims[0] && g.fits() && u.fits() {
        assert(inner == mlp.inner(v));
    }
}

/// The values between the linear maps are those of the SiLU and the product, place by place.
pub proof fn lemma_fed(mlp: Mlp, v: TensorView, inner: TensorView)
    requires
        ({
            let (g, u) = (mlp.gate.applied(v), mlp.up.applied(v));
            &&& inner.dims == g.dims
            &&& inner.dtype == g.dtype
            &&& inner.device == g.device
            &&& inner.elems.len() == g.elems.len()
            &&& forall|p: int|
                0 <= p < g.elems.len() ==> #[trigger] inner.elems[p] == times(
                    g.device,
                    g.dtype,
                    silu_of(g.device, g.dtype, g.elems[p]),
                    u.elems[p],
                )
        }),
    ensures
        mlp.gate.weight().dims[0] == mlp.up.weight().dims[0] && mlp.gate.applied(v).fits()
            && mlp.up.applied(v).fits() ==> inner == mlp.inner(v),
{
    let (g, u) = (mlp.gate.applied(v), mlp.up.applied(v));
    if mlp.gate.weight().dims[0] == mlp.up.weight().dims[0] && g.fits() && u.fits() {
        let a = silus(g);
        let made = mlp.inner(v);
        lemma_zipped_elems(a, u, |x: int, y: int| times(a.device, a.dtype, x, y));
        assert forall|p: int| 0 <= p < g.elems.len() implies inner.elems[p] == made.elems[p] by {
            assert(inner.elems[p] == times(
                g.device,
                g.dtype,
                silu_of(g.device, g.dtype, g.elems[p]),
                u.elems[p],
            ));
        }
        assert(inner =~= made);
    }
}

} // verus!
