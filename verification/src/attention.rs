//! Full attention: queries fused with a gate of the output.
use vstd::prelude::*;
use vstd::arithmetic::div_mod::lemma_fundamental_div_mod;
use candle_core::Tensor;
use crate::candle;
use crate::candle::{
    converted, is, multiplied, packed, rounded, sigmoid_of, tensor_packed, tensor_view, times,
};
use crate::coords::{
    lemma_at4, lemma_broadcast_last, lemma_converted_at, lemma_equal3, lemma_in_range3,
    lemma_mapped_at, lemma_narrowed4, lemma_transposed4, lemma_zipped_elems, lemma_zipped_same, rounded_elem,
};
use crate::error::ModelError;
use crate::heads::{
    head_dims, lemma_merge_at, lemma_split_at, lemma_split_fits, lemma_swap, row_dims,
};
use crate::linear::{lemma_mapped3, Linear};
use crate::ops;
use crate::ops::{broadcasts, reshapable, sigmoids};
use crate::shape::{
    extent, lemma_extent_shorter, lemma_position2, lemma_position3, lemma_product_within_extent,
    lemma_product_zero, product, shape, MAX_ELEMENTS,
};
use crate::view::{aligned, broadcast_rank, broadcastable, Dtype, TensorView};

verus! {

/// The weights and the head layout of a full attention layer.
pub struct FullAttention {
    pub q: Linear,
    pub k: Linear,
    pub v: Linear,
    pub o: Linear,
    pub n_head: usize,
    pub n_kv_head: usize,
    pub head_dim: usize,
    /// How many query heads share a key head.
    pub n_kv_groups: usize,
    /// The type in which keys and values are kept and attention is computed.
    pub dtype: Dtype,
}

/// The queries, keys and values of each head, and a gate for the output.
pub struct AttnHeads {
    /// `[batch, heads, tokens, head dimension]`.
    pub q: Tensor,
    /// `[batch, key heads, tokens, head dimension]`.
    pub k: Tensor,
    /// `[batch, key heads, tokens, head dimension]`.
    pub v: Tensor,
    /// `[batch, tokens, heads * head dimension]`.
    pub gate: Tensor,
}

impl AttnHeads {
    pub open spec fn fits(self) -> bool {
        &&& tensor_view(self.q).fits()
        &&& tensor_view(self.k).fits()
        &&& tensor_view(self.v).fits()
        &&& tensor_view(self.gate).fits()
    }
}

/// `o` holds the heads of the rows of `x`, heads before tokens: in a row, head `h` starts at
/// `h * stride`.
pub open spec fn splits(o: TensorView, x: TensorView, heads: nat, dim: nat, stride: nat) -> bool {
    &&& o.dims == seq![x.dims[0], heads, x.dims[1], dim]
    &&& o.dtype == x.dtype
    &&& o.device == x.device
    &&& forall|b: int, h: int, t: int, d: int|
        0 <= b < x.dims[0] && 0 <= h < heads && 0 <= t < x.dims[1] && 0 <= d < dim
            ==> #[trigger] o.at4(b, h, t, d) == x.at3(b, t, h * stride + d)
}

/// `gate` holds, head by head, the second half of each head of the rows of `x`.
pub open spec fn splits_gate(gate: TensorView, x: TensorView, heads: nat, dim: nat) -> bool {
    &&& gate.dims == seq![x.dims[0], x.dims[1], heads * dim]
    &&& gate.dtype == x.dtype
    &&& gate.device == x.device
    &&& forall|b: int, t: int, h: int, d: int|
        #![trigger x.at3(b, t, h * (dim * 2) + dim + d)]
        0 <= b < x.dims[0] && 0 <= t < x.dims[1] && 0 <= h < heads && 0 <= d < dim ==> gate.at3(
            b,
            t,
            h * dim + d,
        ) == x.at3(b, t, h * (dim * 2) + dim + d)
}

/// The heads of `x` before its tokens. With a single token there is nothing to turn.
fn turn(x: &Tensor) -> (r: Result<Tensor, ModelError>)
    requires
        tensor_view(*x).fits(),
        tensor_view(*x).dims.len() == 4,
    ensures
        match r {
            Ok(o) => {
                let v = tensor_view(*x);
                &&& tensor_view(o).fits()
                &&& tensor_view(o).dims == seq![v.dims[0], v.dims[2], v.dims[1], v.dims[3]]
                &&& tensor_view(o).dtype == v.dtype
                &&& tensor_view(o).device == v.device
                &&& forall|b: int, h: int, t: int, d: int|
                    0 <= b < v.dims[0] && 0 <= h < v.dims[2] && 0 <= t < v.dims[1] && 0 <= d
                        < v.dims[3] ==> #[trigger] tensor_view(o).at4(b, h, t, d) == v.at4(
                        b,
                        t,
                        h,
                        d,
                    )
            },
            Err(_) => !tensor_view(*x).dtype.floating(),
        },
{
    let ghost v = tensor_view(*x);
    let d = candle::dims(x);
    proof {
        assert(v.dims =~= seq![d[0] as nat, d[1] as nat, d[2] as nat, d[3] as nat]);
    }
    if d[1] != 1 {
        let o = ops::transpose(x, 1, 2)?;
        proof {
            assert(tensor_view(o).dims =~= seq![v.dims[0], v.dims[2], v.dims[1], v.dims[3]]);
            assert forall|b: int, h: int, t: int, e: int|
                0 <= b < v.dims[0] && 0 <= h < v.dims[2] && 0 <= t < v.dims[1] && 0 <= e
                    < v.dims[3] implies #[trigger] tensor_view(o).at4(b, h, t, e) == v.at4(
                b,
                t,
                h,
                e,
            ) by {
                lemma_transposed4(v, b, h, t, e);
            }
        }
        Ok(o)
    } else {
        let dims = vec![d[0], d[2], d[1], d[3]];
        proof {
            assert(shape(dims@) =~= seq![v.dims[0], v.dims[2], v.dims[1], v.dims[3]]);
            lemma_swap(v.dims[0], v.dims[1], v.dims[2], v.dims[3]);
        }
        let o = ops::reshape(x, dims)?;
        proof {
            assert forall|b: int, h: int, t: int, e: int|
                0 <= b < v.dims[0] && 0 <= h < v.dims[2] && 0 <= t < v.dims[1] && 0 <= e
                    < v.dims[3] implies #[trigger] tensor_view(o).at4(b, h, t, e) == v.at4(
                b,
                t,
                h,
                e,
            ) by {
                lemma_at4(tensor_view(o), b, h, t, e);
                lemma_at4(v, b, t, h, e);
                assert((b * v.dims[2] + h) * 1 + 0 == (b * 1 + 0) * v.dims[2] + h)
                    by (nonlinear_arith);
            }
        }
        Ok(o)
    }
}

/// The rows of `x` as heads before tokens.
fn row_heads(x: &Tensor, heads: usize, dim: usize) -> (r: Result<Tensor, ModelError>)
    requires
        tensor_view(*x).fits(),
        tensor_view(*x).dims.len() == 3,
    ensures
        match r {
            Ok(o) => {
                &&& tensor_view(o).fits()
                &&& reshapable(
                    tensor_view(*x),
                    head_dims(tensor_view(*x), heads as nat, dim as nat),
                )
                &&& splits(tensor_view(o), tensor_view(*x), heads as nat, dim as nat, dim as nat)
            },
            Err(_) => !(reshapable(
                tensor_view(*x),
                head_dims(tensor_view(*x), heads as nat, dim as nat),
            ) && tensor_view(*x).dtype.floating()),
        },
{
    let ghost v = tensor_view(*x);
    let d = candle::dims(x);
    let dims = vec![d[0], d[1], heads, dim];
    proof {
        assert(v.dims =~= seq![d[0] as nat, d[1] as nat, d[2] as nat]);
        assert(shape(dims@) =~= head_dims(v, heads as nat, dim as nat));
    }
    let dealt = ops::reshape(x, dims)?;
    let o = turn(&dealt)?;
    proof {
        assert forall|b: int, h: int, t: int, e: int|
            0 <= b < v.dims[0] && 0 <= h < heads && 0 <= t < v.dims[1] && 0 <= e
                < dim implies #[trigger] tensor_view(o).at4(b, h, t, e) == v.at3(
            b,
            t,
            h * (dim as nat) + e,
        ) by {
            lemma_split_fits(v, heads as nat, dim as nat);
            lemma_split_at(v, heads as nat, dim as nat, b, t, h, e);
        }
    }
    Ok(o)
}

impl FullAttention {
    /// The weights are sound.
    pub open spec fn sound(self) -> bool {
        &&& self.q.sound()
        &&& self.k.sound()
        &&& self.v.sound()
        &&& self.o.sound()
    }

    /// The weights can be multiplied by, and the numbers of a head and of all heads can be counted.
    pub open spec fn wf(self) -> bool {
        &&& self.q.wf()
        &&& self.k.wf()
        &&& self.v.wf()
        &&& self.o.wf()
        &&& self.head_dim * 2 <= usize::MAX
        &&& self.n_head * self.head_dim <= usize::MAX
    }

    /// Whether a layer with sound weights can be run.
    pub fn is_runnable(&self) -> (r: bool)
        requires
            self.sound(),
        ensures
            r == self.wf(),
    {
        if self.head_dim > usize::MAX / 2 {
            return false;
        }
        self.q.is_runnable() && self.k.is_runnable() && self.v.is_runnable()
            && self.o.is_runnable() && self.n_head.checked_mul(self.head_dim).is_some()
    }

    /// The rows that can be dealt out to the heads of this layer.
    pub open spec fn splittable(self, q_gate: TensorView, k: TensorView, v: TensorView) -> bool {
        &&& reshapable(
            q_gate,
            head_dims(q_gate, self.n_head as nat, (self.head_dim * 2) as nat),
        )
        &&& reshapable(k, head_dims(k, self.n_kv_head as nat, self.head_dim as nat))
        &&& reshapable(v, head_dims(v, self.n_kv_head as nat, self.head_dim as nat))
    }

    /// `h` holds the heads of the given rows: the first half of each head of `q_gate` is its query,
    /// the second half its gate.
    pub open spec fn split_into(
        self,
        q_gate: TensorView,
        k: TensorView,
        v: TensorView,
        h: AttnHeads,
    ) -> bool {
        let dim = self.head_dim as nat;
        &&& splits(tensor_view(h.q), q_gate, self.n_head as nat, dim, dim * 2)
        &&& splits_gate(tensor_view(h.gate), q_gate, self.n_head as nat, dim)
        &&& splits(tensor_view(h.k), k, self.n_kv_head as nat, dim, dim)
        &&& splits(tensor_view(h.v), v, self.n_kv_head as nat, dim, dim)
    }

    /// Rows of queries with gates, keys and values, dealt out to heads.
    pub fn split(&self, q_gate: &Tensor, k: &Tensor, v: &Tensor) -> (r: Result<
        AttnHeads,
        ModelError,
    >)
        requires
            self.head_dim * 2 <= usize::MAX,
            self.n_head * self.head_dim <= usize::MAX,
            tensor_view(*q_gate).fits(),
            tensor_view(*k).fits(),
            tensor_view(*v).fits(),
            tensor_view(*q_gate).dims.len() == 3,
            tensor_view(*k).dims.len() == 3,
            tensor_view(*v).dims.len() == 3,
        ensures
            match r {
                Ok(h) => {
                    &&& h.fits()
                    &&& self.splittable(tensor_view(*q_gate), tensor_view(*k), tensor_view(*v))
                    &&& self.split_into(
                        tensor_view(*q_gate),
                        tensor_view(*k),
                        tensor_view(*v),
                        h,
                    )
                },
                Err(_) => !(self.splittable(tensor_view(*q_gate), tensor_view(*k), tensor_view(*v))
                    && self.n_head * self.head_dim > 0 && tensor_view(
                    *q_gate,
                ).dtype.floating() && tensor_view(*k).dtype.floating() && tensor_view(
                    *v,
                ).dtype.floating()),
            },
    {
        let ghost x = tensor_view(*q_gate);
        let ghost dim = self.head_dim as nat;
        let ghost heads = self.n_head as nat;
        let d = candle::dims(q_gate);
        let dims = vec![d[0], d[1], self.n_head, self.head_dim * 2];
        proof {
            assert(x.dims =~= seq![d[0] as nat, d[1] as nat, d[2] as nat]);
            assert(shape(dims@) =~= head_dims(x, heads, (dim * 2) as nat));
        }
        let dealt = ops::reshape(q_gate, dims)?;
        let ghost dv = tensor_view(dealt);
        let q_part = ops::narrow(&dealt, 3, 0, self.head_dim)?;
        let gate_part = ops::narrow(&dealt, 3, self.head_dim, self.head_dim)?;
        let flat = vec![d[0], d[1], self.n_head * self.head_dim];
        let ghost gp = tensor_view(gate_part);
        let ghost qp = tensor_view(q_part);
        proof {
            assert(gp.dims =~= head_dims(x, heads, dim));
            assert(qp.dims =~= head_dims(x, heads, dim));
            assert(shape(flat@) =~= row_dims(gp, heads * dim));
            lemma_merge_at(gp, 0, 0, 0, 0);
        }
        let gate = ops::reshape(&gate_part, flat)?;
        let q = turn(&q_part)?;
        let k_heads = row_heads(k, self.n_kv_head, self.head_dim)?;
        let v_heads = row_heads(v, self.n_kv_head, self.head_dim)?;
        let h = AttnHeads { q, k: k_heads, v: v_heads, gate };
        proof {
            lemma_split_fits(x, heads, (dim * 2) as nat);
            assert forall|b: int, i: int, t: int, e: int|
                0 <= b < x.dims[0] && 0 <= i < heads && 0 <= t < x.dims[1] && 0 <= e
                    < dim implies #[trigger] tensor_view(h.q).at4(b, i, t, e) == x.at3(
                b,
                t,
                i * (dim * 2) + e,
            ) by {
                lemma_narrowed4(dv, 0, dim, b, t, i, e);
                lemma_split_at(x, heads, (dim * 2) as nat, b, t, i, e);
            }
            assert forall|b: int, t: int, i: int, e: int|
                #![trigger x.at3(b, t, i * (dim * 2) + dim + e)]
                0 <= b < x.dims[0] && 0 <= t < x.dims[1] && 0 <= i < heads && 0 <= e
                    < dim implies tensor_view(h.gate).at3(b, t, i * dim + e) == x.at3(
                b,
                t,
                i * (dim * 2) + dim + e,
            ) by {
                lemma_merge_at(gp, b, t, i, e);
                lemma_narrowed4(dv, dim as int, dim, b, t, i, e);
                lemma_split_at(x, heads, (dim * 2) as nat, b, t, i, e + dim);
            }
        }
        Ok(h)
    }

    /// The inputs on which the linear maps are certain to work, with outputs for all heads.
    pub open spec fn projectable(self, x: Tensor) -> bool {
        &&& tensor_view(x).dims.len() == 3
        &&& self.maps_ready(x)
        &&& self.head_widths()
    }

    /// The inputs on which the linear maps work.
    pub open spec fn maps_ready(self, x: Tensor) -> bool {
        self.q.ready(x) && self.k.ready(x) && self.v.ready(x)
    }

    /// The linear maps give as many numbers as the heads hold.
    pub open spec fn head_widths(self) -> bool {
        &&& self.q.weight().dims[0] == self.n_head * (self.head_dim * 2)
        &&& self.k.weight().dims[0] == self.n_kv_head * self.head_dim
        &&& self.v.weight().dims[0] == self.n_kv_head * self.head_dim
    }

    /// `h` has the shapes of this layer's heads.
    pub open spec fn head_shapes(self, x: TensorView, h: AttnHeads) -> bool {
        let dim = self.head_dim as nat;
        let kv = seq![x.dims[0], self.n_kv_head as nat, x.dims[1], dim];
        &&& x.dims.len() == 3
        &&& tensor_view(h.q).dims == seq![x.dims[0], self.n_head as nat, x.dims[1], dim]
        &&& tensor_view(h.k).dims == kv
        &&& tensor_view(h.v).dims == kv
        &&& tensor_view(h.gate).dims == seq![x.dims[0], x.dims[1], self.n_head as nat * dim]
    }

    /// The first stage: the input mapped to queries with gates, keys and values, dealt out to heads.
    pub fn project(&self, x: &Tensor) -> (r: Result<AttnHeads, ModelError>)
        requires
            self.wf(),
            tensor_view(*x).fits(),
        ensures
            match r {
                Ok(h) => {
                    &&& h.fits()
                    &&& self.maps_ready(*x)
                    &&& self.projects(tensor_view(*x), h)
                },
                Err(_) => !self.projectable(*x),
            },
    {
        let d = candle::dims(x);
        if d.len() != 3 {
            return Err(ModelError::Rank);
        }
        let ghost xv = tensor_view(*x);
        let q_gate = self.q.forward(x)?;
        let k = self.k.forward(x)?;
        let v = self.v.forward(x)?;
        proof {
            let qv = tensor_view(q_gate);
            self.q.lemma_rows();
            self.k.lemma_rows();
            self.v.lemma_rows();
            lemma_mapped3(self.q.weight(), xv);
            lemma_mapped3(self.k.weight(), xv);
            lemma_mapped3(self.v.weight(), xv);
            lemma_split_fits(qv, self.n_head as nat, (self.head_dim * 2) as nat);
            lemma_split_fits(tensor_view(k), self.n_kv_head as nat, self.head_dim as nat);
            lemma_split_fits(tensor_view(v), self.n_kv_head as nat, self.head_dim as nat);
            let (n, dim) = (self.n_head as int, self.head_dim as int);
            assert(n * (dim * 2) > 0 ==> n * dim > 0) by (nonlinear_arith);
        }
        self.split(&q_gate, &k, &v)
    }

    /// `h` holds what the linear maps make of `x`, dealt out to heads.
    pub open spec fn projects(self, x: TensorView, h: AttnHeads) -> bool {
        &&& self.head_shapes(x, h)
        &&& self.q.meets(x)
        &&& self.k.meets(x)
        &&& self.v.meets(x)
        &&& x.dims[0] > 0 && x.dims[1] > 0 ==> self.head_widths()
        &&& self.split_into(self.q.applied(x), self.k.applied(x), self.v.applied(x), h)
    }
}

/// The fused projection is dealt out without loss: each of its numbers is one of a query or one of
/// a gate, and which one its place says.
pub proof fn law_fused_projection(
    layer: FullAttention,
    q_gate: TensorView,
    k: TensorView,
    v: TensorView,
    h: AttnHeads,
    b: int,
    t: int,
    j: int,
)
    requires
        layer.split_into(q_gate, k, v, h),
        q_gate.dims.len() == 3,
        q_gate.dims[2] == layer.n_head * (layer.head_dim * 2),
        0 <= b < q_gate.dims[0],
        0 <= t < q_gate.dims[1],
        0 <= j < q_gate.dims[2],
    ensures
        ({
            let dim = layer.head_dim as int;
            let head = j / (dim * 2);
            let place = j % (dim * 2);
            &&& 0 <= head < layer.n_head
            &&& q_gate.at3(b, t, j) == if place < dim {
                tensor_view(h.q).at4(b, head, t, place)
            } else {
                tensor_view(h.gate).at3(b, t, head * dim + (place - dim))
            }
        }),
{
    let dim = layer.head_dim as int;
    let n = layer.n_head as int;
    let w = dim * 2;
    assert(w > 0) by (nonlinear_arith)
        requires
            0 <= j < n * w,
            n >= 0,
            w >= 0,
    ;
    let head = j / w;
    let place = j % w;
    lemma_fundamental_div_mod(j, w);
    assert(0 <= place < w);
    assert(w * head == head * w) by (nonlinear_arith);
    assert(0 <= head < n) by (nonlinear_arith)
        requires
            0 <= j < n * w,
            j == head * w + place,
            0 <= place < w,
            w > 0,
    ;
    if place < dim {
        assert(tensor_view(h.q).at4(b, head, t, place) == q_gate.at3(
            b,
            t,
            head * (layer.head_dim as nat * 2) + place,
        ));
    } else {
        let d = place - dim;
        assert(q_gate.at3(b, t, head * (layer.head_dim as nat * 2) + layer.head_dim as nat + d)
            == q_gate.at3(b, t, j));
    }
}

/// The attention's output with tokens before heads.
pub open spec fn by_token(y: TensorView, custom_mask: bool) -> TensorView {
    if custom_mask {
        y.transposed(1, 2)
    } else {
        y
    }
}

/// The attention's output in rows, one for each token of each sequence that `gate` has.
pub open spec fn token_rows(y: TensorView, gate: TensorView, custom_mask: bool) -> TensorView {
    let v = by_token(y, custom_mask);
    v.reshaped(row_dims(gate, v.elems.len() / (gate.dims[0] * gate.dims[1])))
}

/// The attention's output can be dealt out to such rows.
pub open spec fn has_token_rows(y: TensorView, gate: TensorView, custom_mask: bool) -> bool {
    let v = by_token(y, custom_mask);
    &&& custom_mask ==> y.dims.len() >= 3
    &&& gate.dims[0] * gate.dims[1] > 0
    &&& v.elems.len() % (gate.dims[0] * gate.dims[1]) == 0
    &&& extent(token_rows(y, gate, custom_mask).dims) <= MAX_ELEMENTS
}

/// The attention's output times the sigmoid of `gate`, in type `to`.
pub open spec fn gated(
    y: TensorView,
    gate: TensorView,
    custom_mask: bool,
    to: Dtype,
) -> TensorView {
    converted(
        multiplied(token_rows(y, gate, custom_mask), sigmoids(converted(gate, y.dtype))),
        to,
    )
}

/// The output and `gate` have shapes that go together.
pub open spec fn gateable(y: TensorView, gate: TensorView, custom_mask: bool) -> bool {
    &&& has_token_rows(y, gate, custom_mask)
    &&& broadcasts(token_rows(y, gate, custom_mask).dims, gate.dims)
}

/// The attention's output in rows, times the sigmoid of `gate`.
pub fn apply_gate(y: &Tensor, gate: &Tensor, custom_mask: bool, to: Dtype) -> (r: Result<
    Tensor,
    ModelError,
>)
    requires
        tensor_view(*y).fits(),
        tensor_view(*gate).fits(),
        tensor_view(*gate).dims.len() == 3,
    ensures
        match r {
            Ok(o) => {
                &&& gateable(tensor_view(*y), tensor_view(*gate), custom_mask)
                &&& is(o, gated(tensor_view(*y), tensor_view(*gate), custom_mask, to))
                &&& packed(o)
            },
            Err(_) => !(gateable(tensor_view(*y), tensor_view(*gate), custom_mask) && tensor_view(
                *y,
            ).dtype.sigmoidal() && tensor_view(*gate).dtype.floating() && to.floating()),
        },
{
    let ghost gv = tensor_view(*gate);
    let ghost yv = tensor_view(*y);
    let d = candle::dims(gate);
    proof {
        assert(gv.dims =~= seq![d[0] as nat, d[1] as nat, d[2] as nat]);
    }
    if d[0] == 0 || d[1] == 0 {
        return Err(ModelError::RowLength);
    }
    proof {
        lemma_rows_fit(d[0] as nat, d[1] as nat, d[2] as nat);
    }
    let tokens: usize = d[0] * d[1];
    let turned;
    let laid: &Tensor = if custom_mask {
        turned = ops::transpose(y, 1, 2)?;
        &turned
    } else {
        y
    };
    let ghost lv = tensor_view(*laid);
    let n = ops::count(laid);
    if n % tokens != 0 {
        return Err(ModelError::RowLength);
    }
    let dims = vec![d[0], d[1], n / tokens];
    proof {
        assert(shape(dims@) =~= row_dims(gv, (n / tokens) as nat));
        lemma_position3(d[0] as nat, d[1] as nat, (n / tokens) as nat, 0, 0, 0);
        lemma_fundamental_div_mod(n as int, tokens as int);
        assert(gv.dims[0] * gv.dims[1] == tokens);
    }
    let rows = ops::reshape(laid, dims)?;
    let cast = ops::to_dtype(gate, candle::dtype(&rows))?;
    let act = ops::sigmoid(&cast)?;
    let prod = ops::broadcast_mul(&rows, &act)?;
    ops::to_dtype(&prod, to)
}

/// Gated rows are those of as many tokens as `gate` has.
pub proof fn lemma_gated_tokens(y: TensorView, gate: TensorView, custom_mask: bool, to: Dtype)
    requires
        gate.dims.len() == 3,
        gateable(y, gate, custom_mask),
    ensures
        gated(y, gate, custom_mask, to).dims.len() == 3,
        gated(y, gate, custom_mask, to).dims[1] == gate.dims[1],
{
    let rows = token_rows(y, gate, custom_mask).dims;
    assert(rows.len() == 3 && rows[1] == gate.dims[1]);
    assert(broadcast_rank(rows, gate.dims) == 3);
    assert(aligned(rows, 3, 1) == gate.dims[1]);
    assert(aligned(gate.dims, 3, 1) == gate.dims[1]);
}

proof fn lemma_rows_fit(a: nat, b: nat, c: nat)
    requires
        a > 0,
        b > 0,
        extent(seq![a, b, c]) <= MAX_ELEMENTS,
    ensures
        0 < a * b <= MAX_ELEMENTS,
{
    lemma_extent_shorter(a, b, 0, c);
    assert(seq![a, b, 0].drop_last() =~= seq![a, b]);
    lemma_position2(a, b, 0, 0);
    assert(a * b > 0) by (nonlinear_arith)
        requires
            a > 0,
            b > 0,
    ;
    lemma_product_within_extent(seq![a, b]);
}

impl FullAttention {
    /// The outputs on which the last linear map works.
    pub open spec fn finishable(
        self,
        y: TensorView,
        gate: TensorView,
        custom_mask: bool,
        dtype: Dtype,
    ) -> bool {
        &&& gateable(y, gate, custom_mask)
        &&& y.dtype.sigmoidal()
        &&& gate.dtype.floating()
        &&& self.o.takes(gated(y, gate, custom_mask, dtype))
    }

    /// What the last linear map makes of the attention's output, gated.
    pub open spec fn finished(
        self,
        y: TensorView,
        gate: TensorView,
        custom_mask: bool,
        dtype: Dtype,
    ) -> TensorView {
        self.o.applied(gated(y, gate, custom_mask, dtype))
    }

    /// The last stage: the attention's output, gated and mapped, where `dtype` is the type of the
    /// layer's input.
    pub fn finish(&self, y: &Tensor, gate: &Tensor, custom_mask: bool, dtype: Dtype) -> (r: Result<
        Tensor,
        ModelError,
    >)
        requires
            self.wf(),
            tensor_view(*y).fits(),
            tensor_view(*gate).fits(),
            tensor_view(*gate).dims.len() == 3,
        ensures
            match r {
                Ok(o) => {
                    let rows = gated(tensor_view(*y), tensor_view(*gate), custom_mask, dtype);
                    &&& gateable(tensor_view(*y), tensor_view(*gate), custom_mask)
                    &&& self.o.takes(rows)
                    &&& is(
                        o,
                        self.finished(tensor_view(*y), tensor_view(*gate), custom_mask, dtype),
                    )
                    &&& tensor_packed(o)
                },
                Err(_) => !self.finishable(
                    tensor_view(*y),
                    tensor_view(*gate),
                    custom_mask,
                    dtype,
                ),
            },
    {
        let rows = apply_gate(y, gate, custom_mask, dtype)?;
        self.o.forward(&rows)
    }
}

/// The output of a head at a token, gated by that head's gate at that token, stands in the token's
/// row at the place of the head.
pub proof fn law_gated_by_head(
    y: TensorView,
    gate: TensorView,
    custom_mask: bool,
    to: Dtype,
    b: int,
    t: int,
    h: int,
    d: int,
)
    requires
        y.fits(),
        gate.fits(),
        y.dims.len() == 4,
        gate.dims == (if custom_mask {
            seq![y.dims[0], y.dims[2], y.dims[1] * y.dims[3]]
        } else {
            seq![y.dims[0], y.dims[1], y.dims[2] * y.dims[3]]
        }),
        y.device == gate.device,
        0 <= b < gate.dims[0],
        0 <= t < gate.dims[1],
        0 <= h < (if custom_mask {
            y.dims[1]
        } else {
            y.dims[2]
        }),
        0 <= d < y.dims[3],
    ensures
        gateable(y, gate, custom_mask),
        gated(y, gate, custom_mask, to).dims == gate.dims,
        gated(y, gate, custom_mask, to).at3(b, t, h * y.dims[3] + d) == {
            let out = if custom_mask {
                y.at4(b, h, t, d)
            } else {
                y.at4(b, t, h, d)
            };
            let g = rounded_elem(gate, y.dtype, gate.at3(b, t, h * y.dims[3] + d));
            let p = times(y.device, y.dtype, out, sigmoid_of(y.device, y.dtype, g));
            if to == y.dtype {
                p
            } else {
                rounded(y.device, y.dtype, to, p)
            }
        },
{
    let v = by_token(y, custom_mask);
    let dim = y.dims[3];
    let rows = token_rows(y, gate, custom_mask);
    if custom_mask {
        lemma_transposed4(y, b, t, h, d);
    }
    let heads = v.dims[2];
    assert(v.dims =~= seq![gate.dims[0], gate.dims[1], heads, dim]);
    lemma_at4(v, b, t, h, d);
    lemma_at4(y, 0, 0, 0, 0);
    let n = heads * dim;
    let tokens = gate.dims[0] * gate.dims[1];
    let c = h * dim + d;
    assert(0 <= c < n) by (nonlinear_arith)
        requires
            c == h * dim + d,
            n == heads * dim,
            0 <= h < heads,
            0 <= d < dim,
    ;
    assert(tokens > 0) by (nonlinear_arith)
        requires
            tokens == gate.dims[0] * gate.dims[1],
            gate.dims[0] > 0,
            gate.dims[1] > 0,
    ;
    assert(tokens * heads * dim == tokens * n) by (nonlinear_arith)
        requires
            n == heads * dim,
    ;
    assert((tokens * n) / tokens == n && (tokens * n) % tokens == 0) by (nonlinear_arith)
        requires
            tokens > 0,
    ;
    assert(rows.dims =~= gate.dims);
    lemma_merge_at(v, b, t, h, d);
    lemma_in_range3(gate.dims, b, t, c);
    lemma_converted_at(gate, y.dtype, seq![b, t, c]);
    let cast = converted(gate, y.dtype);
    lemma_mapped_at(cast, |a: int| sigmoid_of(cast.device, cast.dtype, a), seq![b, t, c]);
    let act = sigmoids(cast);
    lemma_zipped_same(rows, act, |x: int, z: int| times(rows.device, rows.dtype, x, z));
    let prod = multiplied(rows, act);
    assert(prod.dims == gate.dims);
    lemma_converted_at(prod, to, seq![b, t, c]);
    assert(broadcastable(rows.dims, gate.dims)) by {
        let r = broadcast_rank(rows.dims, gate.dims);
        assert forall|i: int| 0 <= i < r implies #[trigger] aligned(rows.dims, r, i) == aligned(
            gate.dims,
            r,
            i,
        ) by {}
    }
}

/// Where each number of the rows goes: of the `2 * dim` numbers of a head in a row of `q_gate`, the first
/// half are the head's query and the second half its gate; keys and values have `dim` numbers for each of
/// their heads. Queries, keys and values have heads before tokens; `gate` keeps tokens before heads.
pub proof fn law_split_values(
    layer: FullAttention,
    q_gate: Tensor,
    k: Tensor,
    v: Tensor,
    r: Result<AttnHeads, ModelError>,
    b: int,
    t: int,
    h: int,
    g: int,
    d: int,
)
    requires
        tensor_view(q_gate).fits(),
        tensor_view(k).fits(),
        tensor_view(v).fits(),
        2 * layer.head_dim <= usize::MAX,
        layer.n_head * layer.head_dim <= usize::MAX,
        ({
            let (q, dim) = (tensor_view(q_gate), layer.head_dim as nat);
            &&& q.dims.len() == 3
            &&& q.dims[2] == layer.n_head as nat * (dim * 2)
            &&& tensor_view(k).dims == seq![q.dims[0], q.dims[1], layer.n_kv_head as nat * dim]
            &&& tensor_view(v).dims == tensor_view(k).dims
            &&& 0 <= b < q.dims[0]
            &&& 0 <= t < q.dims[1]
            &&& 0 <= h < layer.n_head
            &&& 0 <= g < layer.n_kv_head
            &&& 0 <= d < dim
        }),
        call_ensures(FullAttention::split, (&layer, &q_gate, &k, &v), r),
    ensures
        call_requires(FullAttention::split, (&layer, &q_gate, &k, &v)),
        tensor_view(q_gate).dtype.floating() && tensor_view(k).dtype.floating() && tensor_view(
            v,
        ).dtype.floating() ==> r is Ok,
        r is Ok ==> {
            let dim = layer.head_dim as nat;
            let (x, kx, vx) = (tensor_view(q_gate), tensor_view(k), tensor_view(v));
            let (q, gate) = (tensor_view(r->Ok_0.q), tensor_view(r->Ok_0.gate));
            let (kh, vh) = (tensor_view(r->Ok_0.k), tensor_view(r->Ok_0.v));
            &&& q.dims == seq![x.dims[0], layer.n_head as nat, x.dims[1], dim]
            &&& kh.dims == seq![x.dims[0], layer.n_kv_head as nat, x.dims[1], dim]
            &&& vh.dims == kh.dims
            &&& gate.dims == seq![x.dims[0], x.dims[1], layer.n_head as nat * dim]
            &&& q.dtype == x.dtype && gate.dtype == x.dtype && kh.dtype == kx.dtype && vh.dtype
                == vx.dtype
            &&& q.at4(b, h, t, d) == x.at3(b, t, h * (2 * dim) + d)
            &&& gate.at3(b, t, h * dim + d) == x.at3(b, t, h * (2 * dim) + dim + d)
            &&& kh.at4(b, g, t, d) == kx.at3(b, t, g * dim + d)
            &&& vh.at4(b, g, t, d) == vx.at3(b, t, g * dim + d)
        },
{
    let (heads, kv, dim) = (layer.n_head as nat, layer.n_kv_head as nat, layer.head_dim as nat);
    let x = tensor_view(q_gate);
    assert(heads * (dim * 2) > 0 && kv * dim > 0 && heads * dim > 0) by (nonlinear_arith)
        requires
            heads > 0,
            kv > 0,
            dim > 0,
    ;
    lemma_split_fits(x, heads, dim * 2);
    lemma_split_fits(tensor_view(k), kv, dim);
    lemma_split_fits(tensor_view(v), kv, dim);
    assert(x.at3(b, t, h * (dim * 2) + dim + d) == x.at3(b, t, h * (2 * dim) + dim + d));
    if r is Ok {
        let q = tensor_view(r->Ok_0.q);
        assert(q.at4(b, h, t, d) == x.at3(b, t, h * (dim * 2) + d));
    }
}

/// What the first stage gives: each head's query and gate from the numbers that `q` makes of the input, and
/// each key head's key and value from those that `k` and `v` make of it. Packed rows of single-precision
/// numbers are taken, if the weights have as many rows as the heads have numbers.
pub proof fn law_projected_values(
    layer: FullAttention,
    x: Tensor,
    r: Result<AttnHeads, ModelError>,
    b: int,
    t: int,
    h: int,
    g: int,
    d: int,
)
    requires
        layer.wf(),
        tensor_view(x).fits(),
        tensor_view(x).dims.len() == 3,
        call_ensures(FullAttention::project, (&layer, &x), r),
        0 <= b < tensor_view(x).dims[0],
        0 <= t < tensor_view(x).dims[1],
        0 <= h < layer.n_head,
        0 <= g < layer.n_kv_head,
        0 <= d < layer.head_dim,
    ensures
        call_requires(FullAttention::project, (&layer, &x)),
        ({
            let (v, dim) = (tensor_view(x), layer.head_dim as nat);
            let (heads, kv) = (layer.n_head as nat, layer.n_kv_head as nat);
            &&& v.dtype == Dtype::F32
            &&& packed(x)
            &&& layer.q.weight().dims == seq![heads * (2 * dim), v.dims[2]]
            &&& layer.k.weight().dims == seq![kv * dim, v.dims[2]]
            &&& layer.v.weight().dims == seq![kv * dim, v.dims[2]]
            &&& extent(seq![v.dims[0], v.dims[1], heads * (2 * dim)]) <= MAX_ELEMENTS
            &&& extent(seq![v.dims[0], v.dims[1], kv * dim]) <= MAX_ELEMENTS
        }) ==> r is Ok,
        r is Ok ==> {
            let (v, dim) = (tensor_view(x), layer.head_dim as nat);
            let (fused, ks, vs) = (layer.q.applied(v), layer.k.applied(v), layer.v.applied(v));
            let (q, gate) = (tensor_view(r->Ok_0.q), tensor_view(r->Ok_0.gate));
            let (kh, vh) = (tensor_view(r->Ok_0.k), tensor_view(r->Ok_0.v));
            &&& q.dims == seq![v.dims[0], layer.n_head as nat, v.dims[1], dim]
            &&& kh.dims == seq![v.dims[0], layer.n_kv_head as nat, v.dims[1], dim]
            &&& vh.dims == kh.dims
            &&& gate.dims == seq![v.dims[0], v.dims[1], layer.n_head as nat * dim]
            &&& q.dtype == v.dtype && gate.dtype == v.dtype && kh.dtype == v.dtype && vh.dtype
                == v.dtype
            &&& q.at4(b, h, t, d) == fused.at3(b, t, h * (2 * dim) + d)
            &&& gate.at3(b, t, h * dim + d) == fused.at3(b, t, h * (2 * dim) + dim + d)
            &&& kh.at4(b, g, t, d) == ks.at3(b, t, g * dim + d)
            &&& vh.at4(b, g, t, d) == vs.at3(b, t, g * dim + d)
        },
{
    let (v, dim) = (tensor_view(x), layer.head_dim as nat);
    lemma_mapped3(layer.q.weight(), v);
    lemma_mapped3(layer.k.weight(), v);
    lemma_mapped3(layer.v.weight(), v);
    layer.q.law_accepts_single();
    layer.k.law_accepts_single();
    layer.v.law_accepts_single();
    assert(layer.n_head as nat * (2 * dim) == layer.n_head * (layer.head_dim * 2));
    if r is Ok {
        let fused = layer.q.applied(v);
        lemma_projected_at(layer, v, r->Ok_0, b, t, h, g, d);
    }
}

/// The numbers of the heads that the first stage gives.
pub proof fn lemma_projected_at(
    layer: FullAttention,
    v: TensorView,
    heads: AttnHeads,
    b: int,
    t: int,
    h: int,
    g: int,
    d: int,
)
    requires
        v.dims.len() == 3,
        layer.projects(v, heads),
        0 <= b < v.dims[0],
        0 <= t < v.dims[1],
        0 <= h < layer.n_head,
        0 <= g < layer.n_kv_head,
        0 <= d < layer.head_dim,
    ensures
        ({
            let dim = layer.head_dim as nat;
            let fused = layer.q.applied(v);
            &&& tensor_view(heads.q).at4(b, h, t, d) == fused.at3(b, t, h * (2 * dim) + d)
            &&& tensor_view(heads.gate).at3(b, t, h * dim + d) == fused.at3(
                b,
                t,
                h * (2 * dim) + dim + d,
            )
            &&& tensor_view(heads.k).at4(b, g, t, d) == layer.k.applied(v).at3(b, t, g * dim + d)
            &&& tensor_view(heads.v).at4(b, g, t, d) == layer.v.applied(v).at3(b, t, g * dim + d)
        }),
{
    let dim = layer.head_dim as nat;
    let fused = layer.q.applied(v);
    lemma_mapped3(layer.q.weight(), v);
    lemma_mapped3(layer.k.weight(), v);
    lemma_mapped3(layer.v.weight(), v);
    assert(tensor_view(heads.q).at4(b, h, t, d) == fused.at3(b, t, h * (dim * 2) + d));
    assert(fused.at3(b, t, h * (dim * 2) + dim + d) == fused.at3(
        b,
        t,
        h * (2 * dim) + dim + d,
    ));
}

/// Rows whose numbers are the attention's output at a token and a head, times the sigmoid of `gate` there,
/// are the gated rows.
pub proof fn lemma_gated_rows(
    y: TensorView,
    gate: TensorView,
    custom_mask: bool,
    to: Dtype,
    rows: TensorView,
)
    requires
        y.fits(),
        gate.fits(),
        y.dims.len() == 4,
        gate.dims == (if custom_mask {
            seq![y.dims[0], y.dims[2], y.dims[1] * y.dims[3]]
        } else {
            seq![y.dims[0], y.dims[1], y.dims[2] * y.dims[3]]
        }),
        y.device == gate.device,
        product(y.dims) > 0,
        rows.dims == gate.dims,
        rows.dtype == to,
        rows.device == y.device,
        rows.elems.len() == product(rows.dims),
        forall|b: int, t: int, c: int|
            0 <= b < gate.dims[0] && 0 <= t < gate.dims[1] && 0 <= c < gate.dims[2]
                ==> #[trigger] rows.at3(b, t, c) == {
                let (h, d) = (c / y.dims[3] as int, c % y.dims[3] as int);
                let out = if custom_mask {
                    y.at4(b, h, t, d)
                } else {
                    y.at4(b, t, h, d)
                };
                let g = rounded_elem(gate, y.dtype, gate.at3(b, t, c));
                let p = times(y.device, y.dtype, out, sigmoid_of(y.device, y.dtype, g));
                if to == y.dtype {
                    p
                } else {
                    rounded(y.device, y.dtype, to, p)
                }
            },
    ensures
        rows == gated(y, gate, custom_mask, to),
        gateable(y, gate, custom_mask),
{
    let made = gated(y, gate, custom_mask, to);
    let dim = y.dims[3] as int;
    let heads = if custom_mask {
        y.dims[1]
    } else {
        y.dims[2]
    };
    lemma_product_zero(y.dims);
    assert(y.dims[0] != 0 && y.dims[1] != 0 && y.dims[2] != 0 && y.dims[3] != 0);
    law_gated_by_head(y, gate, custom_mask, to, 0, 0, 0, 0);
    assert forall|b: int, t: int, c: int|
        0 <= b < rows.dims[0] && 0 <= t < rows.dims[1] && 0 <= c
            < rows.dims[2] implies #[trigger] rows.at3(b, t, c) == made.at3(b, t, c) by {
        let (h, d) = (c / dim, c % dim);
        lemma_fundamental_div_mod(c, dim);
        assert(dim * h == h * dim) by (nonlinear_arith);
        assert(0 <= h < heads) by (nonlinear_arith)
            requires
                0 <= c < heads * dim,
                c == h * dim + d,
                0 <= d < dim,
        ;
        law_gated_by_head(y, gate, custom_mask, to, b, t, h, d);
    }
    lemma_equal3(rows, made);
}

/// What gating gives: the output of a head at a token, times the sigmoid of that head's gate at that token,
/// in the token's row at the place of the head. The output comes with heads before tokens where the mask
/// is a custom one, and with tokens before heads otherwise.
pub proof fn law_gate_values(
    y: Tensor,
    gate: Tensor,
    custom_mask: bool,
    to: Dtype,
    r: Result<Tensor, ModelError>,
    b: int,
    t: int,
    h: int,
    d: int,
)
    requires
        tensor_view(y).fits(),
        tensor_view(gate).fits(),
        tensor_view(y).dims.len() == 4,
        tensor_view(y).device == tensor_view(gate).device,
        tensor_view(gate).dims == (if custom_mask {
            seq![
                tensor_view(y).dims[0],
                tensor_view(y).dims[2],
                tensor_view(y).dims[1] * tensor_view(y).dims[3],
            ]
        } else {
            seq![
                tensor_view(y).dims[0],
                tensor_view(y).dims[1],
                tensor_view(y).dims[2] * tensor_view(y).dims[3],
            ]
        }),
        call_ensures(apply_gate, (&y, &gate, custom_mask, to), r),
        0 <= b < tensor_view(gate).dims[0],
        0 <= t < tensor_view(gate).dims[1],
        0 <= h < (if custom_mask {
            tensor_view(y).dims[1]
        } else {
            tensor_view(y).dims[2]
        }),
        0 <= d < tensor_view(y).dims[3],
    ensures
        call_requires(apply_gate, (&y, &gate, custom_mask, to)),
        tensor_view(y).dtype.sigmoidal() && tensor_view(gate).dtype.floating() && to.floating()
            ==> r is Ok,
        r is Ok ==> {
            let (v, g, o) = (tensor_view(y), tensor_view(gate), tensor_view(r->Ok_0));
            let c = h * v.dims[3] + d;
            let out = if custom_mask {
                v.at4(b, h, t, d)
            } else {
                v.at4(b, t, h, d)
            };
            let s = sigmoid_of(v.device, v.dtype, rounded_elem(g, v.dtype, g.at3(b, t, c)));
            let p = times(v.device, v.dtype, out, s);
            &&& o.dims == g.dims
            &&& o.dtype == to
            &&& o.device == v.device
            &&& o.at3(b, t, c) == if to == v.dtype {
                p
            } else {
                rounded(v.device, v.dtype, to, p)
            }
        },
{
    law_gated_by_head(tensor_view(y), tensor_view(gate), custom_mask, to, b, t, h, d);
}

/// What the last stage gives: what `o` makes of `rows`, the gated output.
pub proof fn law_finished_values(
    layer: FullAttention,
    y: Tensor,
    gate: Tensor,
    custom_mask: bool,
    dtype: Dtype,
    r: Result<Tensor, ModelError>,
    rows: TensorView,
)
    requires
        layer.wf(),
        tensor_view(y).fits(),
        tensor_view(gate).fits(),
        tensor_view(y).dims.len() == 4,
        tensor_view(y).device == tensor_view(gate).device,
        product(tensor_view(y).dims) > 0,
        tensor_view(gate).dims == (if custom_mask {
            seq![
                tensor_view(y).dims[0],
                tensor_view(y).dims[2],
                tensor_view(y).dims[1] * tensor_view(y).dims[3],
            ]
        } else {
            seq![
                tensor_view(y).dims[0],
                tensor_view(y).dims[1],
                tensor_view(y).dims[2] * tensor_view(y).dims[3],
            ]
        }),
        call_ensures(FullAttention::finish, (&layer, &y, &gate, custom_mask, dtype), r),
        rows.dims == tensor_view(gate).dims,
        rows.dtype == dtype,
        rows.device == tensor_view(y).device,
        rows.elems.len() == product(rows.dims),
        forall|b: int, t: int, c: int|
            0 <= b < rows.dims[0] && 0 <= t < rows.dims[1] && 0 <= c < rows.dims[2]
                ==> #[trigger] rows.at3(b, t, c) == {
                let (v, g) = (tensor_view(y), tensor_view(gate));
                let (h, d) = (c / v.dims[3] as int, c % v.dims[3] as int);
                let out = if custom_mask {
                    v.at4(b, h, t, d)
                } else {
                    v.at4(b, t, h, d)
                };
                let s = rounded_elem(g, v.dtype, g.at3(b, t, c));
                let p = times(v.device, v.dtype, out, sigmoid_of(v.device, v.dtype, s));
                if dtype == v.dtype {
                    p
                } else {
                    rounded(v.device, v.dtype, dtype, p)
                }
            },
    ensures
        call_requires(FullAttention::finish, (&layer, &y, &gate, custom_mask, dtype)),
        r is Ok ==> tensor_view(r->Ok_0) == layer.o.applied(rows),
        tensor_view(y).dtype.sigmoidal() && tensor_view(gate).dtype.floating() && layer.o.takes(
            rows,
        ) ==> r is Ok,
{
    lemma_gated_rows(tensor_view(y), tensor_view(gate), custom_mask, dtype, rows);
}

/// Where the mask is not a custom one, the output may come in any shape that has as many numbers as there are
/// gates: place by place, they are multiplied by the sigmoid of the gates.
pub proof fn law_gate_places(
    y: Tensor,
    gate: Tensor,
    to: Dtype,
    r: Result<Tensor, ModelError>,
    p: int,
)
    requires
        tensor_view(y).fits(),
        tensor_view(gate).fits(),
        tensor_view(gate).dims.len() == 3,
        tensor_view(y).elems.len() == tensor_view(gate).elems.len(),
        tensor_view(y).device == tensor_view(gate).device,
        call_ensures(apply_gate, (&y, &gate, false, to), r),
        0 <= p < tensor_view(gate).elems.len(),
    ensures
        tensor_view(y).dtype.sigmoidal() && tensor_view(gate).dtype.floating() && to.floating()
            ==> r is Ok,
        r is Ok ==> {
            let (v, g, o) = (tensor_view(y), tensor_view(gate), tensor_view(r->Ok_0));
            let s = sigmoid_of(v.device, v.dtype, rounded_elem(g, v.dtype, g.elems[p]));
            let product = times(v.device, v.dtype, v.elems[p], s);
            &&& o.dims == g.dims
            &&& o.dtype == to
            &&& o.device == v.device
            &&& o.elems[p] == if to == v.dtype {
                product
            } else {
                rounded(v.device, v.dtype, to, product)
            }
        },
{
    let (v, g) = (tensor_view(y), tensor_view(gate));
    let tokens = g.dims[0] * g.dims[1];
    let n = g.dims[2];
    lemma_product_zero(g.dims);
    assert(g.dims[0] != 0 && g.dims[1] != 0 && g.dims[2] != 0);
    assert(g.dims =~= seq![g.dims[0], g.dims[1], n]);
    lemma_position3(g.dims[0], g.dims[1], n, 0, 0, 0);
    assert(tokens > 0) by (nonlinear_arith)
        requires
            tokens == g.dims[0] * g.dims[1],
            g.dims[0] > 0,
            g.dims[1] > 0,
    ;
    assert((tokens * n) / tokens == n && (tokens * n) % tokens == 0) by (nonlinear_arith)
        requires
            tokens > 0,
    ;
    let rows = token_rows(v, g, false);
    assert(rows.dims =~= g.dims);
    let cast = converted(g, v.dtype);
    let act = sigmoids(cast);
    lemma_zipped_elems(rows, act, |x: int, z: int| times(rows.device, rows.dtype, x, z));
    lemma_broadcast_last(g.dims);
}

} // verus!
