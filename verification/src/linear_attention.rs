//! Linear attention: the gated delta net.
use vstd::prelude::*;
use vstd::arithmetic::div_mod::lemma_fundamental_div_mod;
use candle_core::Tensor;
use crate::candle;
use crate::candle::{
    converted, is, over, packed, plus, root, rounded, row_mean, row_sum, shifted, silu_of, squared,
    tensor_packed, tensor_view, times,
};
use crate::conv::{
    carried_input, conv_value, convolvable, fresh_input, is_convolution, is_history,
    law_convolution_continues, lemma_joined_middle, window,
};
use crate::coords::{
    lemma_at1, lemma_at2, lemma_at3, lemma_at4, lemma_converted_at, lemma_equal3, lemma_equal4,
    lemma_in_range2, lemma_in_range3, lemma_in_range4, lemma_joined3, lemma_narrowed3, rounded_elem,
};
use crate::error::ModelError;
use crate::gating::{law_softplus_input, lemma_per_head_broadcasts};
use crate::heads::{
    head_dims, is_tiled, lemma_merge_at, lemma_split_at, lemma_split_fits, row_dims, tile_heads,
};
use crate::linear::{lemma_mapped3, Linear};
use crate::norm::{gated_norm, law_norm_by_rows, norm_value, normalizable, RmsNormGated};
use crate::ops;
use crate::ops::{has_rows, reshapable, rows_of};
use crate::shape::{
    extent, lemma_extent_bounds, lemma_extent_shorter, lemma_position2, lemma_position3,
    lemma_position_bounds, lemma_product_within_extent, lemma_product_zero, product, shape,
    MAX_ELEMENTS,
};
use crate::view::{Dtype, TensorView};

verus! {

/// What a linear attention layer keeps of a sequence between calls.
pub struct GdnLayerCache {
    /// The last columns that went into the convolution: `[batch, channels, width]`.
    pub conv_state: Tensor,
    /// The state of the recurrence: `[batch, value heads, key dimension, value dimension]`.
    pub recurrent_state: Tensor,
    /// How many tokens have been processed.
    pub seqlen_offset: usize,
}

/// The weights and the head layout of a linear attention layer.
pub struct LinearAttention {
    pub qkv: Linear,
    pub z: Linear,
    pub beta: Linear,
    pub alpha: Linear,
    pub conv1d_weight: Tensor,
    pub dt_bias: Tensor,
    pub a: Tensor,
    pub norm: RmsNormGated,
    pub out: Linear,
    pub num_k_heads: usize,
    pub num_v_heads: usize,
    pub head_k_dim: usize,
    pub head_v_dim: usize,
    pub conv_kernel_size: usize,
    pub key_dim: usize,
    pub value_dim: usize,
}

impl GdnLayerCache {
    pub open spec fn wf(self) -> bool {
        tensor_view(self.conv_state).fits() && tensor_view(self.recurrent_state).fits()
    }

    /// Whether a call with `seq_len` tokens goes on from the state, rather than from the start.
    pub open spec fn continues(self, seq_len: nat) -> bool {
        self.seqlen_offset > 0 && seq_len == 1
    }

    /// The convolution state reaches back far enough for a kernel of `k`.
    pub open spec fn reaches(self, k: nat) -> bool {
        tensor_view(self.conv_state).dims.len() >= 3 ==> tensor_view(self.conv_state).dims[2] + 1
            >= k
    }
}

/// What the linear maps at the head of the layer give.
pub struct GdnProjections {
    /// Queries, keys and values side by side.
    pub mixed: Tensor,
    /// A gate for the output.
    pub z: Tensor,
    /// What the strength of each update is computed from.
    pub b: Tensor,
    /// What the decay is computed from.
    pub a: Tensor,
}

impl GdnProjections {
    pub open spec fn fits(self) -> bool {
        &&& tensor_view(self.mixed).fits()
        &&& tensor_view(self.z).fits()
        &&& tensor_view(self.b).fits()
        &&& tensor_view(self.a).fits()
    }
}

impl LinearAttention {
    /// The weights are sound.
    pub open spec fn sound(self) -> bool {
        &&& self.qkv.sound()
        &&& self.z.sound()
        &&& self.beta.sound()
        &&& self.alpha.sound()
        &&& self.out.sound()
        &&& tensor_view(self.conv1d_weight).fits()
        &&& tensor_view(self.dt_bias).fits()
        &&& tensor_view(self.a).fits()
        &&& tensor_view(self.norm.weight).fits()
        &&& self.key_dim * 2 + self.value_dim <= usize::MAX
    }

    /// The weights are sound and can be multiplied by, there are key heads, and the convolution has a
    /// kernel.
    pub open spec fn wf(self) -> bool {
        &&& self.sound()
        &&& self.qkv.wf()
        &&& self.z.wf()
        &&& self.beta.wf()
        &&& self.alpha.wf()
        &&& self.out.wf()
        &&& self.num_k_heads >= 1
        &&& self.conv_kernel_size >= 1
    }

    /// Whether a layer with sound weights can be run.
    pub fn is_runnable(&self) -> (r: bool)
        requires
            self.sound(),
        ensures
            r == self.wf(),
    {
        self.qkv.is_runnable() && self.z.is_runnable() && self.beta.is_runnable()
            && self.alpha.is_runnable() && self.out.is_runnable() && self.num_k_heads >= 1
            && self.conv_kernel_size >= 1
    }

    /// The channels of the convolution: queries, keys and values.
    pub open spec fn channels(self) -> nat {
        (self.key_dim * 2 + self.value_dim) as nat
    }

    /// The inputs on which the linear maps work, with outputs for all heads.
    pub open spec fn projectable(self, x: Tensor) -> bool {
        &&& tensor_view(x).dims.len() == 3
        &&& self.maps_ready(x)
        &&& self.head_widths()
    }

    /// The inputs that all four linear maps take.
    pub open spec fn maps_ready(self, x: Tensor) -> bool {
        self.qkv.ready(x) && self.z.ready(x) && self.beta.ready(x) && self.alpha.ready(x)
    }

    /// The linear maps but the first give as many numbers as the value heads hold.
    pub open spec fn head_widths(self) -> bool {
        &&& self.z.weight().dims[0] == self.num_v_heads * self.head_v_dim
        &&& self.beta.weight().dims[0] == self.num_v_heads
        &&& self.alpha.weight().dims[0] == self.num_v_heads
    }

    /// The rows of `x` are those that the linear maps take, and, if there are any, what comes out can be
    /// dealt out to the value heads.
    pub open spec fn meets(self, x: TensorView) -> bool {
        &&& x.dims.len() == 3
        &&& self.qkv.meets(x)
        &&& self.z.meets(x)
        &&& self.beta.meets(x)
        &&& self.alpha.meets(x)
        &&& x.dims[0] > 0 && x.dims[1] > 0 ==> self.head_widths()
    }

    /// What `z` makes of the input, dealt out to the value heads.
    pub open spec fn gate_heads(self, x: TensorView) -> TensorView {
        self.z.applied(x).reshaped(head_dims(x, self.num_v_heads as nat, self.head_v_dim as nat))
    }

    /// What `beta` makes of the input, one number for each value head.
    pub open spec fn strengths(self, x: TensorView) -> TensorView {
        self.beta.applied(x).reshaped(row_dims(x, self.num_v_heads as nat))
    }

    /// What `alpha` makes of the input, one number for each value head.
    pub open spec fn decays(self, x: TensorView) -> TensorView {
        self.alpha.applied(x).reshaped(row_dims(x, self.num_v_heads as nat))
    }

    /// `p` is what the linear maps make of `x`.
    pub open spec fn projects(self, x: TensorView, p: GdnProjections) -> bool {
        &&& self.meets(x)
        &&& tensor_view(p.mixed) == self.qkv.applied(x)
        &&& tensor_view(p.z) == self.gate_heads(x)
        &&& tensor_view(p.b) == self.strengths(x)
        &&& tensor_view(p.a) == self.decays(x)
    }

    /// The four linear maps of the input, dealt out to the value heads.
    pub fn project(&self, x: &Tensor) -> (r: Result<GdnProjections, ModelError>)
        requires
            self.wf(),
            tensor_view(*x).fits(),
        ensures
            match r {
                Ok(p) => p.fits() && self.maps_ready(*x) && self.projects(tensor_view(*x), p),
                Err(_) => !self.projectable(*x),
            },
    {
        let ghost v = tensor_view(*x);
        let d = candle::dims(x);
        if d.len() != 3 {
            return Err(ModelError::Rank);
        }
        let batch: usize = d[0];
        let seq_len: usize = d[1];
        let ghost heads = self.num_v_heads as nat;
        proof {
            assert(v.dims =~= seq![batch as nat, seq_len as nat, d[2] as nat]);
            self.z.lemma_rows();
            lemma_mapped3(self.z.weight(), v);
            lemma_mapped3(self.beta.weight(), v);
            lemma_mapped3(self.alpha.weight(), v);
        }
        let mixed = self.qkv.forward(x)?;
        let z_flat = self.z.forward(x)?;
        let z_dims = vec![batch, seq_len, self.num_v_heads, self.head_v_dim];
        proof {
            assert(shape(z_dims@) =~= head_dims(v, heads, self.head_v_dim as nat));
            lemma_split_fits(tensor_view(z_flat), heads, self.head_v_dim as nat);
        }
        let z = ops::reshape(&z_flat, z_dims)?;
        let b_flat = self.beta.forward(x)?;
        let b_dims = vec![batch, seq_len, self.num_v_heads];
        proof {
            assert(shape(b_dims@) =~= row_dims(v, heads));
            lemma_same_width(batch as nat, seq_len as nat, self.beta.weight().dims[0], heads);
        }
        let b = ops::reshape(&b_flat, b_dims)?;
        let a_flat = self.alpha.forward(x)?;
        let a_dims = vec![batch, seq_len, self.num_v_heads];
        proof {
            assert(shape(a_dims@) =~= row_dims(v, heads));
            lemma_same_width(batch as nat, seq_len as nat, self.alpha.weight().dims[0], heads);
        }
        let a = ops::reshape(&a_flat, a_dims)?;
        Ok(GdnProjections { mixed, z, b, a })
    }

    /// The inputs of the convolution: the channels of `mixed` that the layer uses.
    pub open spec fn conv_x(self, mixed: TensorView) -> TensorView {
        mixed.narrowed(2, 0, self.channels())
    }

    /// The inputs on which the convolution works.
    pub open spec fn mixable(self, mixed: TensorView, cache: GdnLayerCache) -> bool {
        let state = tensor_view(cache.conv_state);
        let goes_on = cache.continues(mixed.dims[1]);
        &&& mixed.dims.len() == 3
        &&& self.channels() <= mixed.dims[2]
        &&& convolvable(
            self.conv_x(mixed),
            tensor_view(self.conv1d_weight),
            self.conv_kernel_size as nat,
            if goes_on {
                state.dims[2]
            } else {
                (self.conv_kernel_size - 1) as nat
            },
            state.dtype,
        )
        &&& goes_on ==> state.dims == seq![mixed.dims[0], self.channels(), state.dims[2]]
    }

    /// `o` is the convolution of `mixed`, from the start or on from the state in the cache.
    pub open spec fn mixes(self, mixed: TensorView, cache: GdnLayerCache, o: TensorView) -> bool {
        let x = self.conv_x(mixed);
        let w = tensor_view(self.conv1d_weight);
        let k = self.conv_kernel_size as nat;
        let state = tensor_view(cache.conv_state);
        &&& mixed.dims.len() == 3
        &&& mixed.dims[1] >= 1
        &&& self.channels() <= mixed.dims[2]
        &&& w.dims == seq![self.channels(), k]
        &&& if cache.continues(mixed.dims[1]) {
            is_convolution(
                o,
                state.joined_device(x),
                state.dtype,
                w,
                k,
                mixed.dims[0],
                self.channels(),
                mixed.dims[1],
                |b: int, c: int, n: int| carried_input(state, x, b, c, n),
            )
        } else {
            is_convolution(
                o,
                mixed.device,
                state.dtype,
                w,
                k,
                mixed.dims[0],
                self.channels(),
                mixed.dims[1],
                |b: int, c: int, n: int| fresh_input(x, state.dtype, b, c, n),
            )
        }
    }

    /// `new` is the convolution state after `mixed`.
    pub open spec fn remembers(
        self,
        mixed: TensorView,
        cache: GdnLayerCache,
        new: TensorView,
    ) -> bool {
        let x = self.conv_x(mixed);
        let state = tensor_view(cache.conv_state);
        &&& mixed.dims.len() == 3
        &&& if cache.continues(mixed.dims[1]) {
            state.dims.len() == 3 && is_history(
                new,
                state.joined_device(x),
                state.dtype,
                state.dims[2],
                mixed.dims[0],
                self.channels(),
                mixed.dims[1],
                |b: int, c: int, n: int| carried_input(state, x, b, c, n),
            )
        } else {
            is_history(
                new,
                mixed.device,
                state.dtype,
                self.conv_kernel_size as nat,
                mixed.dims[0],
                self.channels(),
                mixed.dims[1],
                |b: int, c: int, n: int| fresh_input(x, state.dtype, b, c, n),
            )
        }
    }

    /// The convolution of queries, keys and values: a single token goes on from the state in the
    /// cache, if tokens came before it; anything else starts anew.
    pub fn mix(&self, mixed: &Tensor, cache: &mut GdnLayerCache) -> (r: Result<Tensor, ModelError>)
        requires
            self.wf(),
            tensor_view(*mixed).fits(),
            old(cache).wf(),
            tensor_view(*mixed).dims.len() == 3 && old(cache).continues(tensor_view(*mixed).dims[1])
                ==> old(cache).reaches(self.conv_kernel_size as nat),
        ensures
            final(cache).wf(),
            final(cache).recurrent_state == old(cache).recurrent_state,
            final(cache).seqlen_offset == old(cache).seqlen_offset,
            match r {
                Ok(o) => {
                    &&& self.mixes(tensor_view(*mixed), *old(cache), tensor_view(o))
                    &&& tensor_view(o).fits()
                    &&& self.remembers(
                        tensor_view(*mixed),
                        *old(cache),
                        tensor_view(final(cache).conv_state),
                    )
                },
                Err(_) => {
                    &&& !self.mixable(tensor_view(*mixed), *old(cache))
                    &&& final(cache).conv_state == old(cache).conv_state || self.remembers(
                        tensor_view(*mixed),
                        *old(cache),
                        tensor_view(final(cache).conv_state),
                    )
                },
            },
    {
        let ghost m = tensor_view(*mixed);
        let d = candle::dims(mixed);
        if d.len() != 3 {
            return Err(ModelError::Rank);
        }
        let seq_len: usize = d[1];
        proof {
            assert(m.dims =~= seq![d[0] as nat, d[1] as nat, d[2] as nat]);
        }
        let q = ops::narrow(mixed, 2, 0, self.key_dim)?;
        let k = ops::narrow(mixed, 2, self.key_dim, self.key_dim)?;
        let v_flat = ops::narrow(mixed, 2, self.key_dim * 2, self.value_dim)?;
        proof {
            lemma_parts_are_whole(m, self.key_dim as nat, self.value_dim as nat);
        }
        let qk = ops::join(&q, &k, 2)?;
        let x = ops::join(&qk, &v_flat, 2)?;
        if cache.seqlen_offset > 0 && seq_len == 1 {
            self.causal_conv1d_update(&x, cache)
        } else {
            self.causal_conv1d_full(&x, cache)
        }
    }
}

/// The queries, keys and values of each head.
pub struct GdnHeads {
    pub q: Tensor,
    pub k: Tensor,
    pub v: Tensor,
}

impl GdnHeads {
    pub open spec fn fits(self) -> bool {
        &&& tensor_view(self.q).fits()
        &&& tensor_view(self.k).fits()
        &&& tensor_view(self.v).fits()
    }
}

/// `o` holds `heads` heads of `dim` numbers: head `h` those of head `h % groups` in the channels of
/// `x` from `start` on.
pub open spec fn deals_heads(
    o: TensorView,
    x: TensorView,
    start: int,
    groups: nat,
    heads: nat,
    dim: nat,
) -> bool {
    &&& o.dims == seq![x.dims[0], x.dims[1], heads, dim]
    &&& o.dtype == x.dtype
    &&& o.device == x.device
    &&& forall|b: int, t: int, h: int, d: int|
        0 <= b < x.dims[0] && 0 <= t < x.dims[1] && 0 <= h < heads && 0 <= d < dim
            ==> #[trigger] o.at4(b, t, h, d) == x.at3(b, t, start + (h % (groups as int)) * dim + d)
}

/// The channels of `x` from `start` on, dealt out to `heads` heads of `dim` numbers.
fn deal_heads(x: &Tensor, start: usize, len: usize, heads: usize, dim: usize) -> (r: Result<
    Tensor,
    ModelError,
>)
    requires
        tensor_view(*x).fits(),
        tensor_view(*x).dims.len() == 3,
    ensures
        match r {
            Ok(o) => {
                &&& start + len <= tensor_view(*x).dims[2]
                &&& tensor_view(*x).dims[0] > 0 && tensor_view(*x).dims[1] > 0 ==> len == heads * dim
                &&& deals_heads(
                    tensor_view(o),
                    tensor_view(*x),
                    start as int,
                    heads as nat,
                    heads as nat,
                    dim as nat,
                )
                &&& tensor_view(o).fits()
            },
            Err(_) => !(start + len <= tensor_view(*x).dims[2] && len == heads * dim && len > 0
                && tensor_view(*x).dtype.floating()),
        },
{
    let ghost v = tensor_view(*x);
    let d = candle::dims(x);
    let part = ops::narrow(x, 2, start, len)?;
    let dims = vec![d[0], d[1], heads, dim];
    let ghost pv = tensor_view(part);
    proof {
        assert(v.dims =~= seq![d[0] as nat, d[1] as nat, d[2] as nat]);
        assert(shape(dims@) =~= head_dims(pv, heads as nat, dim as nat));
        lemma_split_fits(pv, heads as nat, dim as nat);
    }
    let o = ops::reshape(&part, dims)?;
    proof {
        assert forall|b: int, t: int, h: int, e: int|
            0 <= b < v.dims[0] && 0 <= t < v.dims[1] && 0 <= h < heads && 0 <= e
                < dim implies #[trigger] tensor_view(o).at4(b, t, h, e) == v.at3(
            b,
            t,
            start + (h % (heads as int)) * (dim as nat) + e,
        ) by {
            lemma_split_at(pv, heads as nat, dim as nat, b, t, h, e);
            assert(h * dim + e < heads * dim && 0 <= h * dim + e) by (nonlinear_arith)
                requires
                    0 <= h < heads,
                    0 <= e < dim,
            ;
            lemma_narrowed3(v, start as int, len as nat, b, t, h * dim + e);
            assert(h % (heads as int) == h) by (nonlinear_arith)
                requires
                    0 <= h < heads,
            ;
        }
    }
    Ok(o)
}

impl LinearAttention {
    /// How many value heads share a key head.
    pub open spec fn group(self) -> nat {
        (self.num_v_heads / self.num_k_heads) as nat
    }

    /// How many heads the queries and keys are dealt out to in the end.
    pub open spec fn query_heads(self) -> nat {
        if self.group() > 1 {
            self.num_v_heads as nat
        } else {
            self.num_k_heads as nat
        }
    }

    /// The heads make up the keys and the values.
    pub open spec fn heads_make_up(self) -> bool {
        &&& self.key_dim == self.num_k_heads * self.head_k_dim
        &&& self.value_dim == self.num_v_heads * self.head_v_dim
    }

    /// The shapes that can be dealt out to the heads of this layer.
    pub open spec fn dealable(self, x: TensorView) -> bool {
        &&& x.dims.len() == 3
        &&& self.heads_make_up()
        &&& self.channels() <= x.dims[2]
        &&& self.group() > 1 ==> self.num_k_heads * self.group() == self.num_v_heads
    }

    /// `h` holds the heads of `x`: query and key head `i` is the one numbered `i % num_k_heads` in
    /// the channels of `x`.
    pub open spec fn deals(self, x: TensorView, h: GdnHeads) -> bool {
        let groups = self.num_k_heads as nat;
        let dim = self.head_k_dim as nat;
        &&& deals_heads(tensor_view(h.q), x, 0, groups, self.query_heads(), dim)
        &&& deals_heads(tensor_view(h.k), x, self.key_dim as int, groups, self.query_heads(), dim)
        &&& deals_heads(
            tensor_view(h.v),
            x,
            self.key_dim * 2,
            self.num_v_heads as nat,
            self.num_v_heads as nat,
            self.head_v_dim as nat,
        )
    }

    /// The queries, keys and values of each value head.
    pub fn heads(&self, x: &Tensor) -> (r: Result<GdnHeads, ModelError>)
        requires
            self.wf(),
            tensor_view(*x).fits(),
            tensor_view(*x).dims.len() == 3,
        ensures
            match r {
                Ok(h) => {
                    &&& tensor_view(*x).dims[0] > 0 && tensor_view(*x).dims[1] > 0
                        ==> self.heads_make_up()
                    &&& self.channels() <= tensor_view(*x).dims[2]
                    &&& self.deals(tensor_view(*x), h)
                    &&& h.fits()
                },
                Err(_) => !(self.dealable(tensor_view(*x)) && self.key_dim > 0 && self.value_dim > 0
                    && tensor_view(*x).dtype.floating() && extent(
                    head_dims(tensor_view(*x), self.query_heads(), self.head_k_dim as nat),
                ) <= MAX_ELEMENTS),
            },
    {
        let ghost v = tensor_view(*x);
        let per_group: usize = self.num_v_heads / self.num_k_heads;
        let q = deal_heads(x, 0, self.key_dim, self.num_k_heads, self.head_k_dim)?;
        let k = deal_heads(x, self.key_dim, self.key_dim, self.num_k_heads, self.head_k_dim)?;
        let v_heads = deal_heads(
            x,
            self.key_dim * 2,
            self.value_dim,
            self.num_v_heads,
            self.head_v_dim,
        )?;
        if per_group > 1 {
            let q_all = tile_heads(&q, per_group, self.num_v_heads)?;
            let k_all = tile_heads(&k, per_group, self.num_v_heads)?;
            let h = GdnHeads { q: q_all, k: k_all, v: v_heads };
            proof {
                lemma_tiled_deals(
                    tensor_view(h.q),
                    tensor_view(q),
                    v,
                    0,
                    self.num_k_heads as nat,
                    self.num_v_heads as nat,
                    self.head_k_dim as nat,
                );
                lemma_tiled_deals(
                    tensor_view(h.k),
                    tensor_view(k),
                    v,
                    self.key_dim as int,
                    self.num_k_heads as nat,
                    self.num_v_heads as nat,
                    self.head_k_dim as nat,
                );
            }
            Ok(h)
        } else {
            Ok(GdnHeads { q, k, v: v_heads })
        }
    }
}

proof fn lemma_tiled_deals(
    o: TensorView,
    part: TensorView,
    x: TensorView,
    start: int,
    groups: nat,
    heads: nat,
    dim: nat,
)
    requires
        groups > 0,
        is_tiled(o, part, heads),
        deals_heads(part, x, start, groups, groups, dim),
    ensures
        deals_heads(o, x, start, groups, heads, dim),
{
    assert forall|b: int, t: int, h: int, d: int|
        0 <= b < x.dims[0] && 0 <= t < x.dims[1] && 0 <= h < heads && 0 <= d
            < dim implies #[trigger] o.at4(b, t, h, d) == x.at3(
        b,
        t,
        start + (h % (groups as int)) * dim + d,
    ) by {
        let g = h % (groups as int);
        assert(0 <= g < groups);
        assert(o.at4(b, t, h, d) == part.at4(b, t, g, d));
        assert(g % (groups as int) == g) by (nonlinear_arith)
            requires
                0 <= g < groups,
        ;
    }
}

impl LinearAttention {
    /// The heads' outputs `y`, each normalised and gated by its part of `z`.
    pub open spec fn normed(self, y: TensorView, z: TensorView) -> TensorView {
        gated_norm(
            tensor_view(self.norm.weight),
            self.norm.eps,
            rows_of(y, self.head_v_dim as nat),
            rows_of(z, self.head_v_dim as nat),
        )
    }

    /// The shapes for which normalisation and gate can be put in rows of all heads.
    pub open spec fn normable(self, y: TensorView, z: TensorView) -> bool {
        let dim = self.head_v_dim as nat;
        &&& has_rows(y, dim)
        &&& has_rows(z, dim)
        &&& normalizable(
            tensor_view(self.norm.weight).dims,
            rows_of(y, dim).dims,
            rows_of(z, dim).dims,
        )
        &&& reshapable(self.normed(y, z), z.dims)
        &&& reshapable(self.normed(y, z), row_dims(z, self.value_dim as nat))
    }

    /// The heads' outputs, normalised, gated and put side by side.
    pub fn norm_rows(&self, y: &Tensor, z: &Tensor) -> (r: Result<Tensor, ModelError>)
        requires
            tensor_view(*y).fits(),
            tensor_view(*z).fits(),
            tensor_view(*z).dims.len() >= 2,
            tensor_view(self.norm.weight).fits(),
        ensures
            match r {
                Ok(o) => {
                    &&& self.normable(tensor_view(*y), tensor_view(*z))
                    &&& is(o, self.normed_rows(tensor_view(*y), tensor_view(*z)))
                    &&& tensor_packed(o)
                },
                Err(_) => !(self.normable(tensor_view(*y), tensor_view(*z)) && tensor_view(
                    *y,
                ).dtype.floating() && tensor_view(*z).dtype.floating() && tensor_view(
                    self.norm.weight,
                ).dtype.floating()),
            },
    {
        let z_dims = candle::dims(z);
        let flat = vec![z_dims[0], z_dims[1], self.value_dim];
        proof {
            assert(tensor_view(*z).dims[0] == z_dims[0] as nat);
            assert(tensor_view(*z).dims[1] == z_dims[1] as nat);
            assert(shape(flat@) =~= row_dims(tensor_view(*z), self.value_dim as nat));
        }
        let y_rows = ops::rows(y, self.head_v_dim)?;
        let z_rows = ops::rows(z, self.head_v_dim)?;
        let normed = self.norm.forward(&y_rows, &z_rows)?;
        let shaped = ops::reshape(&normed, z_dims)?;
        ops::reshape(&shaped, flat)
    }

    /// The output of the layer: the heads' outputs, normalised, gated and mixed by the last linear
    /// map.
    pub fn finish(&self, y: &Tensor, z: &Tensor) -> (r: Result<Tensor, ModelError>)
        requires
            self.wf(),
            tensor_view(*y).fits(),
            tensor_view(*z).fits(),
            tensor_view(*z).dims.len() >= 2,
        ensures
            self.finishes(tensor_view(*y), tensor_view(*z), r),
    {
        let rows = self.norm_rows(y, z)?;
        let single = ops::to_dtype(&rows, Dtype::F32)?;
        proof {
            self.out.law_accepts_single();
        }
        let o = self.out.forward(&single)?;
        ops::to_dtype(&o, candle::dtype(y))
    }

    /// What the last linear map makes of the heads' outputs, computed in single precision and given in
    /// their type.
    pub open spec fn finished(self, y: TensorView, z: TensorView) -> TensorView {
        converted(self.out.applied(self.single_rows(y, z)), y.dtype)
    }

    /// The rows that the last linear map is applied to.
    pub open spec fn single_rows(self, y: TensorView, z: TensorView) -> TensorView {
        converted(self.normed_rows(y, z), Dtype::F32)
    }

    /// The heads' outputs, normalised, gated and put side by side.
    pub open spec fn normed_rows(self, y: TensorView, z: TensorView) -> TensorView {
        self.normed(y, z).reshaped(row_dims(z, self.value_dim as nat))
    }

    /// The outputs on which the last linear map works.
    pub open spec fn finishable(self, y: TensorView, z: TensorView) -> bool {
        &&& self.normable(y, z)
        &&& y.dtype.floating()
        &&& z.dtype.floating()
        &&& tensor_view(self.norm.weight).dtype.floating()
        &&& self.out.takes(self.single_rows(y, z))
    }

    /// `r` is what comes of the heads' outputs.
    pub open spec fn finishes(
        self,
        y: TensorView,
        z: TensorView,
        r: Result<Tensor, ModelError>,
    ) -> bool {
        match r {
            Ok(o) => {
                &&& self.normable(y, z)
                &&& self.out.takes(self.single_rows(y, z))
                &&& is(o, self.finished(y, z))
            },
            Err(_) => !self.finishable(y, z),
        }
    }

    /// The layer after the recurrence, which gave `y` and `state`. The cache takes the state and counts
    /// the tokens first: it has moved on even where the output cannot be computed.
    pub fn conclude(&self, y: &Tensor, state: Tensor, z: &Tensor, cache: &mut GdnLayerCache) -> (r:
        Result<Tensor, ModelError>)
        requires
            self.wf(),
            tensor_view(*y).fits(),
            tensor_view(*z).fits(),
            tensor_view(*z).dims.len() >= 2,
            old(cache).seqlen_offset + tensor_view(*z).dims[1] <= usize::MAX,
        ensures
            old(cache).moved_on(tensor_view(*z).dims[1], state, *final(cache)),
            self.finishes(tensor_view(*y), tensor_view(*z), r),
    {
        let d = candle::dims(z);
        assert(tensor_view(*z).dims[1] == d[1] as nat);
        cache.recurrent_state = state;
        cache.seqlen_offset = cache.seqlen_offset + d[1];
        self.finish(y, z)
    }
}

impl GdnLayerCache {
    /// `after` is this cache once `tokens` tokens have gone through the recurrence and left `state`.
    pub open spec fn moved_on(self, tokens: nat, state: Tensor, after: GdnLayerCache) -> bool {
        &&& after.conv_state == self.conv_state
        &&& after.recurrent_state == state
        &&& after.seqlen_offset == self.seqlen_offset + tokens
    }
}

/// What the layer hands to the recurrence, but for the softplus and the normalisation of queries
/// and keys.
pub struct GdnInputs {
    pub heads: GdnHeads,
    /// A gate for the output.
    pub z: Tensor,
    /// What the strength of each update is computed from.
    pub b: Tensor,
    /// What the softplus is to be taken of.
    pub biased: Tensor,
}

impl GdnInputs {
    pub open spec fn fits(self) -> bool {
        &&& self.heads.fits()
        &&& tensor_view(self.z).fits()
        &&& tensor_view(self.b).fits()
        &&& tensor_view(self.biased).fits()
    }
}

impl LinearAttention {
    /// The inputs on which the stages up to the recurrence work.
    pub open spec fn forwardable(self, x: Tensor, cache: GdnLayerCache) -> bool {
        let v = tensor_view(x);
        &&& self.projectable(x)
        &&& self.mixable(self.qkv.applied(v), cache)
        &&& self.heads_make_up()
        &&& self.key_dim > 0
        &&& self.value_dim > 0
        &&& self.group() > 1 ==> self.num_k_heads * self.group() == self.num_v_heads
        &&& extent(head_dims(v, self.query_heads(), self.head_k_dim as nat)) <= MAX_ELEMENTS
        &&& tensor_view(self.dt_bias).dims == seq![self.num_v_heads as nat]
        &&& tensor_view(self.dt_bias).dtype.floating()
    }

    /// `s` is what the stages up to the recurrence make of `x` and the cache, by way of the
    /// convolution's result `mixed`.
    pub open spec fn forwards(
        self,
        x: TensorView,
        cache: GdnLayerCache,
        s: GdnInputs,
        mixed: TensorView,
    ) -> bool {
        &&& self.meets(x)
        &&& self.mixes(self.qkv.applied(x), cache, mixed)
        &&& mixed.fits()
        &&& x.dims[0] > 0 ==> self.heads_make_up()
        &&& self.deals(mixed, s.heads)
        &&& tensor_view(s.z) == self.gate_heads(x)
        &&& tensor_view(s.b) == self.strengths(x)
        &&& self.decays(x).fits()
        &&& tensor_view(s.biased) == self.biased(self.decays(x))
    }

    /// `s`, and the convolution state in `after`, are what the stages up to the recurrence make of
    /// `x` and the cache `before`.
    pub open spec fn forwarded(
        self,
        x: TensorView,
        before: GdnLayerCache,
        after: GdnLayerCache,
        s: GdnInputs,
    ) -> bool {
        &&& exists|mixed: TensorView| #[trigger] self.forwards(x, before, s, mixed)
        &&& self.remembers(self.qkv.applied(x), before, tensor_view(after.conv_state))
    }

    /// The layer up to the recurrence: linear maps, convolution, heads, and what the softplus is to
    /// be taken of. The cache takes the last inputs of the convolution, as soon as the linear maps have
    /// been applied and the convolution has got that far.
    pub fn forward(&self, x: &Tensor, cache: &mut GdnLayerCache) -> (r: Result<
        GdnInputs,
        ModelError,
    >)
        requires
            self.wf(),
            tensor_view(*x).fits(),
            old(cache).wf(),
            tensor_view(*x).dims.len() == 3 && old(cache).continues(tensor_view(*x).dims[1])
                ==> old(cache).reaches(self.conv_kernel_size as nat),
        ensures
            final(cache).wf(),
            final(cache).recurrent_state == old(cache).recurrent_state,
            final(cache).seqlen_offset == old(cache).seqlen_offset,
            match r {
                Ok(s) => {
                    &&& s.fits()
                    &&& self.maps_ready(*x)
                    &&& self.forwarded(tensor_view(*x), *old(cache), *final(cache), s)
                },
                Err(_) => {
                    &&& !self.forwardable(*x, *old(cache))
                    &&& final(cache).conv_state == old(cache).conv_state || (self.maps_ready(*x)
                        && self.meets(tensor_view(*x)) && self.remembers(
                        self.qkv.applied(tensor_view(*x)),
                        *old(cache),
                        tensor_view(final(cache).conv_state),
                    ))
                },
            },
    {
        let ghost v = tensor_view(*x);
        let ghost before = *old(cache);
        let p = self.project(x)?;
        proof {
            lemma_mapped3(self.qkv.weight(), v);
        }
        let mixed = self.mix(&p.mixed, cache)?;
        let ghost mv = tensor_view(mixed);
        let heads = self.heads(&mixed)?;
        proof {
            if self.forwardable(*x, before) {
                lemma_per_head_broadcasts(tensor_view(self.dt_bias), tensor_view(p.a).dims);
            }
        }
        let biased = self.softplus_input(&p.a)?;
        let s = GdnInputs { heads, z: p.z, b: p.b, biased };
        proof {
            assert(self.forwards(v, before, s, mv));
        }
        Ok(s)
    }
}

/// Rows of one length hold as many numbers as rows of another, if there are any, only if the lengths are
/// the same.
proof fn lemma_same_width(a: nat, b: nat, n: nat, m: nat)
    ensures
        product(seq![a, b, n]) == product(seq![a, b, m]) && a > 0 && b > 0 ==> n == m,
{
    lemma_position3(a, b, n, 0, 0, 0);
    lemma_position3(a, b, m, 0, 0, 0);
    assert(a * b * n == a * b * m && a > 0 && b > 0 ==> n == m) by (nonlinear_arith);
}

/// A token that goes on from the cache is convolved as if it had come with the tokens before it: with
/// the cache `kept` after `head`, `tail` gives what the last token of both together gives, and leaves
/// the same state.
pub proof fn law_decoding_continues_prefill(
    layer: LinearAttention,
    head: TensorView,
    tail: TensorView,
    whole: TensorView,
    fresh: GdnLayerCache,
    kept: GdnLayerCache,
    tail_out: TensorView,
    tail_state: TensorView,
    whole_out: TensorView,
    whole_state: TensorView,
)
    requires
        layer.wf(),
        head.fits(),
        tail.fits(),
        head.dims.len() == 3,
        tail.dims == seq![head.dims[0], 1, head.dims[2]],
        head.dtype == tail.dtype,
        head.device == tail.device,
        whole == head.joined(tail, 1),
        layer.channels() <= head.dims[2],
        !fresh.continues(head.dims[1]),
        !fresh.continues(whole.dims[1]),
        kept.seqlen_offset > 0,
        layer.remembers(head, fresh, tensor_view(kept.conv_state)),
        layer.mixes(tail, kept, tail_out),
        layer.remembers(tail, kept, tail_state),
        layer.mixes(whole, fresh, whole_out),
        layer.remembers(whole, fresh, whole_state),
    ensures
        forall|b: int, c: int|
            0 <= b < head.dims[0] && 0 <= c < layer.channels() ==> #[trigger] tail_out.at3(b, 0, c)
                == whole_out.at3(b, head.dims[1] as int, c),
        forall|b: int, c: int, j: int|
            0 <= b < head.dims[0] && 0 <= c < layer.channels() && 0 <= j < layer.conv_kernel_size
                ==> #[trigger] tail_state.at3(b, c, j) == whole_state.at3(b, c, j),
{
    let x = layer.conv_x(head);
    let y = layer.conv_x(tail);
    let w = layer.conv_x(whole);
    lemma_slice_of_joined(head, tail, layer.channels());
    let dtype = tensor_view(fresh.conv_state).dtype;
    let state = tensor_view(kept.conv_state);
    assert(x.dims =~= seq![head.dims[0], head.dims[1], layer.channels()]);
    assert(y.dims =~= seq![head.dims[0], 1, layer.channels()]);
    assert(w.dims =~= seq![head.dims[0], head.dims[1] + 1, layer.channels()]);
    law_convolution_continues(
        x,
        y,
        w,
        tensor_view(layer.conv1d_weight),
        layer.conv_kernel_size as nat,
        dtype,
        state,
        tail_out,
        tail_state,
        whole_out,
        whole_state,
    );
    assert forall|b: int, c: int|
        0 <= b < head.dims[0] && 0 <= c < layer.channels() implies #[trigger] tail_out.at3(b, 0, c)
        == whole_out.at3(b, head.dims[1] as int, c) by {
        assert(tail_out.at3(b, 0, c) == whole_out.at3(b, x.dims[1] + 0int, c));
    }
}

/// The first channels of tokens put one behind the other are those of each, put one behind the other.
proof fn lemma_slice_of_joined(a: TensorView, b: TensorView, n: nat)
    requires
        a.dims.len() == 3,
        b.dims == seq![a.dims[0], b.dims[1], a.dims[2]],
        a.dtype == b.dtype,
        a.device == b.device,
        n <= a.dims[2],
    ensures
        a.joined(b, 1).narrowed(2, 0, n) == a.narrowed(2, 0, n).joined(b.narrowed(2, 0, n), 1),
{
    let l = a.joined(b, 1).narrowed(2, 0, n);
    let x = a.narrowed(2, 0, n);
    let y = b.narrowed(2, 0, n);
    let r = x.joined(y, 1);
    assert(l.dims =~= r.dims);
    assert forall|i: int, j: int, k: int|
        0 <= i < l.dims[0] && 0 <= j < l.dims[1] && 0 <= k < l.dims[2] implies #[trigger] l.at3(
        i,
        j,
        k,
    ) == r.at3(i, j, k) by {
        lemma_narrowed3(a.joined(b, 1), 0, n, i, j, k);
        lemma_joined_middle(a, b, i, j, k);
        lemma_joined_middle(x, y, i, j, k);
        if j < a.dims[1] {
            lemma_narrowed3(a, 0, n, i, j, k);
        } else {
            lemma_narrowed3(b, 0, n, i, j - a.dims[1], k);
        }
    }
    lemma_equal3(l, r);
}

/// A layer whose weights have the sizes of its heads takes all sequences of packed single-precision rows
/// that keep within memory, with a cache of the layer's shape.
pub proof fn law_layer_takes_sequences(layer: LinearAttention, x: Tensor, cache: GdnLayerCache)
    requires
        layer.wf(),
        tensor_view(x).fits(),
        tensor_view(x).dims.len() == 3,
        tensor_view(x).dims[1] > 0,
        tensor_view(x).dtype == Dtype::F32,
        packed(x),
        layer.qkv.weight().dims == seq![layer.channels(), tensor_view(x).dims[2]],
        layer.z.weight().dims == seq![layer.value_dim as nat, tensor_view(x).dims[2]],
        layer.beta.weight().dims == seq![layer.num_v_heads as nat, tensor_view(x).dims[2]],
        layer.alpha.weight().dims == seq![layer.num_v_heads as nat, tensor_view(x).dims[2]],
        tensor_view(layer.conv1d_weight).dims == seq![
            layer.channels(),
            layer.conv_kernel_size as nat,
        ],
        tensor_view(layer.conv1d_weight).dtype.floating(),
        tensor_view(layer.dt_bias).dims == seq![layer.num_v_heads as nat],
        tensor_view(layer.dt_bias).dtype.floating(),
        layer.heads_make_up(),
        layer.key_dim > 0,
        layer.value_dim > 0,
        layer.num_v_heads % layer.num_k_heads == 0,
        tensor_view(cache.conv_state).dims == seq![
            tensor_view(x).dims[0],
            layer.channels(),
            layer.conv_kernel_size as nat,
        ],
        tensor_view(cache.conv_state).dtype.floating(),
        extent(row_dims(tensor_view(x), layer.channels())) <= MAX_ELEMENTS,
        extent(
            seq![
                tensor_view(x).dims[0],
                layer.channels(),
                layer.conv_kernel_size as nat + tensor_view(x).dims[1],
            ],
        ) <= MAX_ELEMENTS,
        extent(row_dims(tensor_view(x), layer.num_v_heads as nat)) <= MAX_ELEMENTS,
        extent(head_dims(tensor_view(x), layer.query_heads(), layer.head_k_dim as nat))
            <= MAX_ELEMENTS,
    ensures
        layer.forwardable(x, cache),
        cache.reaches(layer.conv_kernel_size as nat),
{
    let v = tensor_view(x);
    let batch = v.dims[0];
    let tokens = v.dims[1];
    let c = layer.channels();
    let k = layer.conv_kernel_size as nat;
    lemma_extent_shorter(batch, tokens, layer.value_dim as nat, c);
    lemma_mapped3(layer.qkv.weight(), v);
    lemma_mapped3(layer.z.weight(), v);
    lemma_mapped3(layer.beta.weight(), v);
    lemma_mapped3(layer.alpha.weight(), v);
    layer.qkv.law_accepts_single();
    layer.z.law_accepts_single();
    layer.beta.law_accepts_single();
    layer.alpha.law_accepts_single();
    assert(layer.qkv.ready(x));
    assert(layer.z.ready(x));
    let mixed = layer.qkv.applied(v);
    assert(layer.conv_x(mixed).dims =~= seq![batch, tokens, c]);
    lemma_extent_shorter(batch, c, (k - 1) as nat + tokens, k + tokens);
    let hk = layer.num_k_heads as int;
    let hv = layer.num_v_heads as int;
    lemma_fundamental_div_mod(hv, hk);
}

/// A call of the layer: what comes out has a row for each token of each sequence, the states keep their
/// shapes if the recurrence keeps that of its own, and the tokens are counted.
pub proof fn law_layer_shapes(
    layer: LinearAttention,
    x: TensorView,
    before: GdnLayerCache,
    between: GdnLayerCache,
    after: GdnLayerCache,
    s: GdnInputs,
    y: TensorView,
    state: Tensor,
    o: Tensor,
)
    requires
        layer.forwarded(x, before, between, s),
        between.seqlen_offset == before.seqlen_offset,
        between.moved_on(tensor_view(s.z).dims[1], state, after),
        layer.finishes(y, tensor_view(s.z), Ok(o)),
        tensor_view(before.conv_state).dims == seq![
            x.dims[0],
            layer.channels(),
            layer.conv_kernel_size as nat,
        ],
        tensor_view(state).dims == tensor_view(before.recurrent_state).dims,
    ensures
        tensor_view(o).dims == seq![x.dims[0], x.dims[1], layer.out.weight().dims[0]],
        tensor_view(after.conv_state).dims == tensor_view(before.conv_state).dims,
        tensor_view(after.conv_state).dtype == tensor_view(before.conv_state).dtype,
        tensor_view(after.recurrent_state).dims == tensor_view(before.recurrent_state).dims,
        after.seqlen_offset == before.seqlen_offset + x.dims[1],
{
    let z = tensor_view(s.z);
    let mixed = choose|mixed: TensorView| #[trigger] layer.forwards(x, before, s, mixed);
    lemma_mapped3(layer.qkv.weight(), x);
    lemma_mapped3(layer.out.weight(), layer.single_rows(y, z));
    law_conv_state_shape(
        layer,
        layer.qkv.applied(x),
        before,
        tensor_view(between.conv_state),
    );
}

/// From the start, and with several tokens, what the convolution state held does not matter: only its
/// type does.
pub proof fn law_fresh_start_forgets(
    layer: LinearAttention,
    mixed: TensorView,
    one: GdnLayerCache,
    other: GdnLayerCache,
    out1: TensorView,
    out2: TensorView,
    state1: TensorView,
    state2: TensorView,
)
    requires
        !one.continues(mixed.dims[1]),
        !other.continues(mixed.dims[1]),
        tensor_view(one.conv_state).dtype == tensor_view(other.conv_state).dtype,
        out1.fits(),
        out2.fits(),
        state1.fits(),
        state2.fits(),
        layer.mixes(mixed, one, out1),
        layer.mixes(mixed, other, out2),
        layer.remembers(mixed, one, state1),
        layer.remembers(mixed, other, state2),
    ensures
        out1 == out2,
        state1 == state2,
{
    assert forall|b: int, t: int, c: int|
        0 <= b < out1.dims[0] && 0 <= t < out1.dims[1] && 0 <= c
            < out1.dims[2] implies #[trigger] out1.at3(b, t, c) == out2.at3(b, t, c) by {}
    lemma_equal3(out1, out2);
    assert forall|b: int, c: int, j: int|
        0 <= b < state1.dims[0] && 0 <= c < state1.dims[1] && 0 <= j
            < state1.dims[2] implies #[trigger] state1.at3(b, c, j) == state2.at3(b, c, j) by {}
    lemma_equal3(state1, state2);
}

/// So a layer from the start, and with several tokens, hands the same to the recurrence and remembers
/// the same, whatever the convolution state held.
pub proof fn law_layer_starts_afresh(
    layer: LinearAttention,
    x: TensorView,
    one: GdnLayerCache,
    other: GdnLayerCache,
    after1: GdnLayerCache,
    after2: GdnLayerCache,
    s1: GdnInputs,
    s2: GdnInputs,
)
    requires
        !one.continues(x.dims[1]),
        !other.continues(x.dims[1]),
        tensor_view(one.conv_state).dtype == tensor_view(other.conv_state).dtype,
        after1.wf(),
        after2.wf(),
        s1.fits(),
        s2.fits(),
        layer.forwarded(x, one, after1, s1),
        layer.forwarded(x, other, after2, s2),
    ensures
        tensor_view(after1.conv_state) == tensor_view(after2.conv_state),
        tensor_view(s1.heads.q) == tensor_view(s2.heads.q),
        tensor_view(s1.heads.k) == tensor_view(s2.heads.k),
        tensor_view(s1.heads.v) == tensor_view(s2.heads.v),
        tensor_view(s1.z) == tensor_view(s2.z),
        tensor_view(s1.b) == tensor_view(s2.b),
        tensor_view(s1.biased) == tensor_view(s2.biased),
{
    let m1 = choose|mixed: TensorView| #[trigger] layer.forwards(x, one, s1, mixed);
    let m2 = choose|mixed: TensorView| #[trigger] layer.forwards(x, other, s2, mixed);
    lemma_mapped3(layer.qkv.weight(), x);
    law_fresh_start_forgets(
        layer,
        layer.qkv.applied(x),
        one,
        other,
        m1,
        m2,
        tensor_view(after1.conv_state),
        tensor_view(after2.conv_state),
    );
    let (k, v) = (layer.key_dim as int, layer.num_v_heads as nat);
    let (groups, heads) = (layer.num_k_heads as nat, layer.query_heads());
    let (dk, dv) = (layer.head_k_dim as nat, layer.head_v_dim as nat);
    lemma_same_heads(tensor_view(s1.heads.q), tensor_view(s2.heads.q), m1, 0, groups, heads, dk);
    lemma_same_heads(tensor_view(s1.heads.k), tensor_view(s2.heads.k), m1, k, groups, heads, dk);
    lemma_same_heads(tensor_view(s1.heads.v), tensor_view(s2.heads.v), m1, k * 2, v, v, dv);
}

/// Nor does it matter for success: what a layer takes from the start, and with several tokens, depends on
/// nothing of the cache but the type of its convolution state.
pub proof fn law_fresh_success(
    layer: LinearAttention,
    x: Tensor,
    one: GdnLayerCache,
    other: GdnLayerCache,
)
    requires
        tensor_view(x).dims.len() == 3,
        !one.continues(tensor_view(x).dims[1]),
        !other.continues(tensor_view(x).dims[1]),
        tensor_view(one.conv_state).dtype == tensor_view(other.conv_state).dtype,
    ensures
        layer.forwardable(x, one) == layer.forwardable(x, other),
{
    lemma_mapped3(layer.qkv.weight(), tensor_view(x));
}

/// Heads are dealt out in one way.
proof fn lemma_same_heads(
    a: TensorView,
    b: TensorView,
    x: TensorView,
    start: int,
    groups: nat,
    heads: nat,
    dim: nat,
)
    requires
        a.fits(),
        b.fits(),
        deals_heads(a, x, start, groups, heads, dim),
        deals_heads(b, x, start, groups, heads, dim),
    ensures
        a == b,
{
    assert forall|i: int, j: int, k: int, l: int|
        0 <= i < a.dims[0] && 0 <= j < a.dims[1] && 0 <= k < a.dims[2] && 0 <= l
            < a.dims[3] implies #[trigger] a.at4(i, j, k, l) == b.at4(i, j, k, l) by {}
    lemma_equal4(a, b);
}

/// The convolution state keeps its shape: as many columns as the kernel has places, from the first
/// call on.
pub proof fn law_conv_state_shape(
    layer: LinearAttention,
    mixed: TensorView,
    cache: GdnLayerCache,
    new: TensorView,
)
    requires
        layer.remembers(mixed, cache, new),
        tensor_view(cache.conv_state).dims == seq![
            mixed.dims[0],
            layer.channels(),
            layer.conv_kernel_size as nat,
        ],
    ensures
        new.dims == tensor_view(cache.conv_state).dims,
        new.dtype == tensor_view(cache.conv_state).dtype,
{
}

/// Each head's output is normalised by itself, gated by its own part of `z`, and stands in the
/// rows at the places of its head.
pub proof fn law_heads_normed(
    layer: LinearAttention,
    y: TensorView,
    z: TensorView,
    b: int,
    t: int,
    h: int,
    d: int,
)
    requires
        y.fits(),
        z.fits(),
        y.dims.len() == 4,
        z.dims == y.dims,
        y.dims[2] == layer.num_v_heads,
        y.dims[3] == layer.head_v_dim,
        layer.value_dim == layer.num_v_heads * layer.head_v_dim,
        tensor_view(layer.norm.weight).fits(),
        tensor_view(layer.norm.weight).dims == seq![y.dims[3]],
        y.device == z.device == tensor_view(layer.norm.weight).device,
        0 <= b < y.dims[0],
        0 <= t < y.dims[1],
        0 <= h < y.dims[2],
        0 <= d < y.dims[3],
    ensures
        layer.normable(y, z),
        layer.normed(y, z).reshaped(row_dims(z, layer.value_dim as nat)).at3(
            b,
            t,
            h * layer.head_v_dim + d,
        ) == {
            let weight = tensor_view(layer.norm.weight);
            let row = Seq::new(
                y.dims[3],
                |j: int| rounded_elem(y, Dtype::F32, y.at4(b, t, h, j)),
            );
            let n = norm_value(
                y.device,
                row,
                d,
                rounded_elem(weight, Dtype::F32, weight.at(seq![d])),
                layer.norm.eps,
                rounded_elem(z, Dtype::F32, z.at4(b, t, h, d)),
            );
            if y.dtype == Dtype::F32 {
                n
            } else {
                rounded(y.device, Dtype::F32, y.dtype, n)
            }
        },
{
    let dim = y.dims[3];
    let weight = tensor_view(layer.norm.weight);
    let yr = rows_of(y, dim);
    let zr = rows_of(z, dim);
    let i = (b * y.dims[1] + t) * y.dims[2] + h;
    lemma_at4(y, b, t, h, d);
    lemma_at4(z, b, t, h, d);
    lemma_in_range4(y.dims, b, t, h, d);
    lemma_position_bounds(y.dims, seq![b, t, h, d]);
    lemma_product_within_extent(y.dims);
    let lines = y.dims[0] * y.dims[1] * y.dims[2];
    lemma_head_row(y.dims[0] as int, y.dims[1] as int, y.dims[2] as int, b, t, h);
    lemma_rows_of(lines, dim);
    assert(yr.dims == seq![lines, dim]);
    law_norm_by_rows(weight, layer.norm.eps, yr, zr, i, d);
    let n = layer.normed(y, z);
    lemma_at2(n, i, d);
    lemma_merge_at(z, b, t, h, d);
    let flat = n.reshaped(row_dims(z, layer.value_dim as nat));
    lemma_at3(flat, b, t, h * dim + d);
    let x = b * y.dims[1] + t;
    let hv = y.dims[2];
    assert(x * (hv * dim) + (h * dim + d) == (x * hv + h) * dim + d) by (nonlinear_arith);
    assert(hv * dim > 0) by (nonlinear_arith)
        requires
            hv > 0,
            dim > 0,
    ;
    let row = Seq::new(dim, |j: int| rounded_elem(y, Dtype::F32, y.at4(b, t, h, j)));
    assert(row =~= Seq::new(dim, |j: int| rounded_elem(yr, Dtype::F32, yr.at2(i, j)))) by {
        assert forall|j: int| 0 <= j < dim implies y.at4(b, t, h, j) == yr.at2(i, j) by {
            lemma_at4(y, b, t, h, j);
            lemma_at2(yr, i, j);
        }
    }
    lemma_at2(zr, i, d);
}

proof fn lemma_rows_of(lines: nat, dim: nat)
    requires
        dim > 0,
        lines * dim <= MAX_ELEMENTS,
        lines > 0,
    ensures
        (lines * dim) % dim == 0,
        (lines * dim) / dim == lines,
        extent(seq![lines, dim]) == lines * dim,
        product(seq![lines, dim]) == lines * dim,
{
    assert((lines * dim) % dim == 0 && (lines * dim) / dim == lines) by (nonlinear_arith)
        requires
            dim > 0,
    ;
    lemma_position2(lines, dim, 0, 0);
    lemma_product_within_extent(seq![lines, dim]);
    assert(lines * dim > 0) by (nonlinear_arith)
        requires
            lines > 0,
            dim > 0,
    ;
}

proof fn lemma_head_row(a: int, b: int, c: int, i: int, j: int, k: int)
    requires
        0 <= i < a,
        0 <= j < b,
        0 <= k < c,
    ensures
        0 <= (i * b + j) * c + k < a * b * c,
{
    assert(0 <= i * b + j && i * b + j + 1 <= a * b) by (nonlinear_arith)
        requires
            0 <= i < a,
            0 <= j < b,
    ;
    let x = i * b + j;
    let y = a * b;
    assert(0 <= x * c + k && x * c + k < y * c) by (nonlinear_arith)
        requires
            0 <= x,
            x + 1 <= y,
            0 <= k < c,
    ;
}

/// Three slices that lie side by side, put side by side again, are one slice.
proof fn lemma_parts_are_whole(m: TensorView, key: nat, value: nat)
    requires
        m.fits(),
        m.dims.len() == 3,
        key * 2 + value <= m.dims[2],
    ensures
        ({
            let q = m.narrowed(2, 0, key);
            let k = m.narrowed(2, key as int, key);
            let v = m.narrowed(2, (key * 2) as int, value);
            let whole = m.narrowed(2, 0, key * 2 + value);
            &&& q.joined(k, 2).joined(v, 2) == whole
            &&& ops::joins(q, k, 2)
            &&& ops::joins(q.joined(k, 2), v, 2)
        }),
{
    let q = m.narrowed(2, 0, key);
    let k = m.narrowed(2, key as int, key);
    let v = m.narrowed(2, (key * 2) as int, value);
    let whole = m.narrowed(2, 0, key * 2 + value);
    let qk = q.joined(k, 2);
    let all = qk.joined(v, 2);
    assert(all.dims =~= whole.dims);
    assert(q.dims.update(2, 0) =~= k.dims.update(2, 0));
    assert(q.dims.update(2, 0) =~= v.dims.update(2, 0));
    assert(whole.dims =~= seq![m.dims[0], m.dims[1], key * 2 + value]);
    assert(m.dims =~= seq![m.dims[0], m.dims[1], m.dims[2]]);
    lemma_extent_shorter(m.dims[0], m.dims[1], key * 2 + value, m.dims[2]);
    lemma_extent_shorter(m.dims[0], m.dims[1], key * 2, m.dims[2]);
    lemma_extent_bounds(m.dims, 2);
    assert(qk.dims =~= seq![m.dims[0], m.dims[1], key * 2]);
    assert(qk.dims.update(2, 0) =~= v.dims.update(2, 0));
    assert forall|b: int, s: int, c: int|
        0 <= b < all.dims[0] && 0 <= s < all.dims[1] && 0 <= c < all.dims[2] implies #[trigger] all.at3(
        b,
        s,
        c,
    ) == whole.at3(b, s, c) by {
        lemma_narrowed3(m, 0, key * 2 + value, b, s, c);
        lemma_joined3(qk, v, b, s, c);
        if c < key * 2 {
            lemma_joined3(q, k, b, s, c);
            if c < key {
                lemma_narrowed3(m, 0, key, b, s, c);
            } else {
                lemma_narrowed3(m, key as int, key, b, s, c - key);
            }
        } else {
            lemma_narrowed3(m, (key * 2) as int, value, b, s, c - key * 2);
        }
    }
    lemma_equal3(all, whole);
}

/// What the four linear maps give: `qkv` the inputs of the convolution, `z` a gate for each number of each
/// value head, and `beta` and `alpha` one number for each value head.
pub proof fn law_gdn_projections(
    layer: LinearAttention,
    x: Tensor,
    r: Result<GdnProjections, ModelError>,
    b: int,
    t: int,
    h: int,
    d: int,
)
    requires
        layer.wf(),
        tensor_view(x).fits(),
        tensor_view(x).dims.len() == 3,
        call_ensures(LinearAttention::project, (&layer, &x), r),
        0 <= b < tensor_view(x).dims[0],
        0 <= t < tensor_view(x).dims[1],
        0 <= h < layer.num_v_heads,
        0 <= d < layer.head_v_dim,
    ensures
        call_requires(LinearAttention::project, (&layer, &x)),
        ({
            let (v, n) = (tensor_view(x), layer.num_v_heads as nat);
            let width = n * layer.head_v_dim as nat;
            &&& v.dtype == Dtype::F32
            &&& packed(x)
            &&& layer.qkv.weight().dims == seq![layer.qkv.weight().dims[0], v.dims[2]]
            &&& layer.z.weight().dims == seq![width, v.dims[2]]
            &&& layer.beta.weight().dims == seq![n, v.dims[2]]
            &&& layer.alpha.weight().dims == seq![n, v.dims[2]]
            &&& extent(seq![v.dims[0], v.dims[1], layer.qkv.weight().dims[0]]) <= MAX_ELEMENTS
            &&& extent(seq![v.dims[0], v.dims[1], width]) <= MAX_ELEMENTS
            &&& extent(seq![v.dims[0], v.dims[1], n]) <= MAX_ELEMENTS
        }) ==> r is Ok,
        r is Ok ==> {
            let (v, n) = (tensor_view(x), layer.num_v_heads as nat);
            let p = r->Ok_0;
            &&& tensor_view(p.mixed) == layer.qkv.applied(v)
            &&& tensor_view(p.z).dims == seq![v.dims[0], v.dims[1], n, layer.head_v_dim as nat]
            &&& tensor_view(p.b).dims == seq![v.dims[0], v.dims[1], n]
            &&& tensor_view(p.a).dims == seq![v.dims[0], v.dims[1], n]
            &&& tensor_view(p.z).at4(b, t, h, d) == layer.z.applied(v).at3(
                b,
                t,
                h * layer.head_v_dim + d,
            )
            &&& tensor_view(p.b).at3(b, t, h) == layer.beta.applied(v).at3(b, t, h)
            &&& tensor_view(p.a).at3(b, t, h) == layer.alpha.applied(v).at3(b, t, h)
        },
{
    let v = tensor_view(x);
    lemma_mapped3(layer.qkv.weight(), v);
    lemma_mapped3(layer.z.weight(), v);
    lemma_mapped3(layer.beta.weight(), v);
    lemma_mapped3(layer.alpha.weight(), v);
    layer.qkv.law_accepts_single();
    layer.z.law_accepts_single();
    layer.beta.law_accepts_single();
    layer.alpha.law_accepts_single();
    if r is Ok {
        lemma_split_at(
            layer.z.applied(v),
            layer.num_v_heads as nat,
            layer.head_v_dim as nat,
            b,
            t,
            h,
            d,
        );
    }
}

/// What the convolution of queries, keys and values gives. A single token goes on from the cache if tokens
/// came before it; anything else starts anew, with zeros before the first token.
pub proof fn law_mixed_values(
    layer: LinearAttention,
    mixed: Tensor,
    cache: &mut GdnLayerCache,
    r: Result<Tensor, ModelError>,
    b: int,
    t: int,
    c: int,
    i: int,
)
    requires
        layer.wf(),
        tensor_view(mixed).fits(),
        tensor_view(old(cache).conv_state).fits(),
        tensor_view(old(cache).recurrent_state).fits(),
        tensor_view(mixed).dims.len() == 3,
        tensor_view(mixed).dims[1] >= 1,
        layer.key_dim * 2 + layer.value_dim <= tensor_view(mixed).dims[2],
        tensor_view(layer.conv1d_weight).dims == seq![
            (layer.key_dim * 2 + layer.value_dim) as nat,
            layer.conv_kernel_size as nat,
        ],
        old(cache).seqlen_offset > 0 && tensor_view(mixed).dims[1] == 1 ==> {
            let held = tensor_view(old(cache).conv_state);
            &&& held.device == tensor_view(mixed).device
            &&& held.dims == seq![
                tensor_view(mixed).dims[0],
                (layer.key_dim * 2 + layer.value_dim) as nat,
                held.dims[2],
            ]
            &&& held.dims[2] + 1 >= layer.conv_kernel_size
        },
        call_ensures(LinearAttention::mix, (&layer, &mixed, cache), r),
        0 <= b < tensor_view(mixed).dims[0],
        0 <= t < tensor_view(mixed).dims[1],
        0 <= c < layer.key_dim * 2 + layer.value_dim,
    ensures
        call_requires(LinearAttention::mix, (&layer, &mixed, cache)),
        tensor_view(mixed).dtype.floating() && tensor_view(layer.conv1d_weight).dtype.floating()
            && tensor_view(old(cache).conv_state).dtype.floating() && extent(
            seq![
                tensor_view(mixed).dims[0],
                (layer.key_dim * 2 + layer.value_dim) as nat,
                (if old(cache).seqlen_offset > 0 && tensor_view(mixed).dims[1] == 1 {
                    tensor_view(old(cache).conv_state).dims[2]
                } else {
                    (layer.conv_kernel_size - 1) as nat
                }) + tensor_view(mixed).dims[1],
            ],
        ) <= MAX_ELEMENTS ==> r is Ok,
        final(cache).recurrent_state == old(cache).recurrent_state,
        final(cache).seqlen_offset == old(cache).seqlen_offset,
        r is Ok ==> {
            let (v, w, o) = (
                tensor_view(mixed),
                tensor_view(layer.conv1d_weight),
                tensor_view(r->Ok_0),
            );
            let (before, after) = (
                tensor_view(old(cache).conv_state),
                tensor_view(final(cache).conv_state),
            );
            let k = layer.conv_kernel_size as int;
            let goes_on = old(cache).seqlen_offset > 0 && v.dims[1] == 1;
            let width = if goes_on {
                before.dims[2] as int
            } else {
                k
            };
            let input = |n: int|
                if n >= 0 {
                    rounded_elem(v, before.dtype, v.at3(b, n, c))
                } else if goes_on {
                    before.at3(b, c, before.dims[2] + n)
                } else {
                    0
                };
            let products = Seq::new(
                k as nat,
                |j: int|
                    times(
                        v.device,
                        before.dtype,
                        input(t - k + 1 + j),
                        rounded_elem(w, before.dtype, w.at2(c, j)),
                    ),
            );
            &&& o.dims == seq![
                v.dims[0],
                v.dims[1],
                (layer.key_dim * 2 + layer.value_dim) as nat,
            ]
            &&& o.dtype == before.dtype
            &&& o.at3(b, t, c) == silu_of(
                v.device,
                before.dtype,
                row_sum(v.device, before.dtype, products),
            )
            &&& after.dims == seq![v.dims[0], (layer.key_dim * 2 + layer.value_dim) as nat, width as nat]
            &&& after.dtype == before.dtype
            &&& 0 <= i < width ==> after.at3(b, c, i) == input(v.dims[1] - width + i)
        },
{
    let v = tensor_view(mixed);
    let before = tensor_view(old(cache).conv_state);
    let k = layer.conv_kernel_size as nat;
    assert(layer.conv_x(v).dims =~= seq![v.dims[0], v.dims[1], layer.channels()]);
    if r is Ok {
        lemma_mixed_at(
            layer,
            v,
            *old(cache),
            tensor_view(final(cache).conv_state),
            tensor_view(r->Ok_0),
            b,
            t,
            c,
            i,
        );
    }
}

/// The numbers of the convolution of queries, keys and values, and of the state after it.
pub proof fn lemma_mixed_at(
    layer: LinearAttention,
    v: TensorView,
    cache: GdnLayerCache,
    after: TensorView,
    o: TensorView,
    b: int,
    t: int,
    c: int,
    i: int,
)
    requires
        tensor_view(layer.conv1d_weight).fits(),
        layer.conv_kernel_size >= 1,
        v.dims.len() == 3,
        cache.wf(),
        layer.mixes(v, cache, o),
        layer.remembers(v, cache, after),
        cache.seqlen_offset > 0 && v.dims[1] == 1 ==> {
            let held = tensor_view(cache.conv_state);
            &&& held.device == v.device
            &&& held.dims == seq![v.dims[0], layer.channels(), held.dims[2]]
            &&& held.dims[2] + 1 >= layer.conv_kernel_size
        },
        0 <= b < v.dims[0],
        0 <= t < v.dims[1],
        0 <= c < layer.channels(),
    ensures
        ({
            let w = tensor_view(layer.conv1d_weight);
            let before = tensor_view(cache.conv_state);
            let k = layer.conv_kernel_size as int;
            let goes_on = cache.seqlen_offset > 0 && v.dims[1] == 1;
            let width = if goes_on {
                before.dims[2] as int
            } else {
                k
            };
            let input = |n: int|
                if n >= 0 {
                    rounded_elem(v, before.dtype, v.at3(b, n, c))
                } else if goes_on {
                    before.at3(b, c, before.dims[2] + n)
                } else {
                    0
                };
            let products = Seq::new(
                k as nat,
                |j: int|
                    times(
                        v.device,
                        before.dtype,
                        input(t - k + 1 + j),
                        rounded_elem(w, before.dtype, w.at2(c, j)),
                    ),
            );
            &&& o.dims == seq![v.dims[0], v.dims[1], layer.channels()]
            &&& o.dtype == before.dtype
            &&& o.at3(b, t, c) == silu_of(
                v.device,
                before.dtype,
                row_sum(v.device, before.dtype, products),
            )
            &&& after.dims == seq![v.dims[0], layer.channels(), width as nat]
            &&& after.dtype == before.dtype
            &&& 0 <= i < width ==> after.at3(b, c, i) == input(v.dims[1] - width + i)
        }),
{
    let w = tensor_view(layer.conv1d_weight);
    let before = tensor_view(cache.conv_state);
    let dtype = before.dtype;
    let k = layer.conv_kernel_size as int;
    let x = layer.conv_x(v);
    let cast = converted(w, dtype);
    let goes_on = cache.seqlen_offset > 0 && v.dims[1] == 1;
    let input = |n: int|
        if n >= 0 {
            rounded_elem(v, dtype, v.at3(b, n, c))
        } else if goes_on {
            before.at3(b, c, before.dims[2] + n)
        } else {
            0
        };
    let products = Seq::new(
        k as nat,
        |j: int| times(v.device, dtype, input(t - k + 1 + j), rounded_elem(w, dtype, w.at2(c, j))),
    );
    assert(x.dims =~= seq![v.dims[0], v.dims[1], layer.channels()]);
    assert forall|n: int| 0 <= n < v.dims[1] implies #[trigger] x.at3(b, n, c) == v.at3(b, n, c) by {
        lemma_narrowed3(v, 0, layer.channels(), b, n, c);
    }
    assert forall|j: int| 0 <= j < k implies #[trigger] cast.at2(c, j) == rounded_elem(
        w,
        dtype,
        w.at2(c, j),
    ) by {
        lemma_in_range2(w.dims, c, j);
        lemma_converted_at(w, dtype, seq![c, j]);
    }
    let width = if goes_on {
        before.dims[2] as int
    } else {
        k
    };
    let last = v.dims[1] - width + i;
    if goes_on {
        let carried = |b: int, c: int, n: int| carried_input(before, x, b, c, n);
        let win = window(|n: int| carried(b, c, n), k as nat, t);
        assert(o.at3(b, t, c) == conv_value(before.joined_device(x), dtype, cast, c, win));
        assert(products =~= Seq::new(
            win.len(),
            |j: int| times(v.device, dtype, win[j], cast.at2(c, j)),
        )) by {
            assert forall|j: int| 0 <= j < k implies products[j] == times(
                v.device,
                dtype,
                win[j],
                cast.at2(c, j),
            ) by {
                let n = t - k + 1 + j;
                if n >= 0 {
                    assert(x.at3(b, n, c) == v.at3(b, n, c));
                }
            }
        }
        if 0 <= i < width {
            assert(after.at3(b, c, i) == carried(b, c, last));
            if last >= 0 {
                assert(x.at3(b, last, c) == v.at3(b, last, c));
            }
        }
    } else {
        let fresh = |b: int, c: int, n: int| fresh_input(x, dtype, b, c, n);
        let win = window(|n: int| fresh(b, c, n), k as nat, t);
        assert(o.at3(b, t, c) == conv_value(v.device, dtype, cast, c, win));
        assert(products =~= Seq::new(
            win.len(),
            |j: int| times(v.device, dtype, win[j], cast.at2(c, j)),
        )) by {
            assert forall|j: int| 0 <= j < k implies products[j] == times(
                v.device,
                dtype,
                win[j],
                cast.at2(c, j),
            ) by {
                let n = t - k + 1 + j;
                if n >= 0 {
                    assert(x.at3(b, n, c) == v.at3(b, n, c));
                }
            }
        }
        if 0 <= i < width {
            assert(after.at3(b, c, i) == fresh(b, c, last));
            if last >= 0 {
                assert(x.at3(b, last, c) == v.at3(b, last, c));
            }
        }
    }
}

/// Where the numbers of the heads are: queries come first in a row, then keys, then values, and value head
/// `h` works with query and key head `h % num_k_heads`, as many value heads sharing one as there are for it.
pub proof fn law_gdn_heads(
    layer: LinearAttention,
    x: Tensor,
    r: Result<GdnHeads, ModelError>,
    b: int,
    t: int,
    h: int,
    d: int,
    e: int,
)
    requires
        layer.wf(),
        tensor_view(x).fits(),
        tensor_view(x).dims.len() == 3,
        layer.key_dim == layer.num_k_heads * layer.head_k_dim,
        layer.value_dim == layer.num_v_heads * layer.head_v_dim,
        layer.key_dim * 2 + layer.value_dim <= tensor_view(x).dims[2],
        layer.num_v_heads as int % layer.num_k_heads as int == 0,
        call_ensures(LinearAttention::heads, (&layer, &x), r),
        0 <= b < tensor_view(x).dims[0],
        0 <= t < tensor_view(x).dims[1],
        0 <= h < layer.num_v_heads,
        0 <= d < layer.head_k_dim,
        0 <= e < layer.head_v_dim,
    ensures
        call_requires(LinearAttention::heads, (&layer, &x)),
        tensor_view(x).dtype.floating() && extent(
            seq![
                tensor_view(x).dims[0],
                tensor_view(x).dims[1],
                layer.num_v_heads as nat,
                layer.head_k_dim as nat,
            ],
        ) <= MAX_ELEMENTS ==> r is Ok,
        r is Ok ==> {
            let v = tensor_view(x);
            let (q, k, w) = (
                tensor_view(r->Ok_0.q),
                tensor_view(r->Ok_0.k),
                tensor_view(r->Ok_0.v),
            );
            let (dk, dv) = (layer.head_k_dim as nat, layer.head_v_dim as nat);
            let g = h % layer.num_k_heads as int;
            &&& q.dims == seq![v.dims[0], v.dims[1], layer.num_v_heads as nat, dk]
            &&& k.dims == q.dims
            &&& w.dims == seq![v.dims[0], v.dims[1], layer.num_v_heads as nat, dv]
            &&& q.dtype == v.dtype && k.dtype == v.dtype && w.dtype == v.dtype
            &&& q.at4(b, t, h, d) == v.at3(b, t, g * dk + d)
            &&& k.at4(b, t, h, d) == v.at3(b, t, layer.key_dim + g * dk + d)
            &&& w.at4(b, t, h, e) == v.at3(b, t, layer.key_dim * 2 + h * dv + e)
        },
{
    let (nk, nv) = (layer.num_k_heads as int, layer.num_v_heads as int);
    let (dk, dv) = (layer.head_k_dim as int, layer.head_v_dim as int);
    lemma_heads_grouped(layer);
    assert(nk * dk > 0 && nv * dv > 0) by (nonlinear_arith)
        requires
            nk > 0,
            dk > 0,
            nv > 0,
            dv > 0,
    ;
    assert(h % nv == h) by (nonlinear_arith)
        requires
            0 <= h < nv,
    ;
}

/// Where the value heads are a multiple of the key heads, queries and keys are dealt out to all of them.
proof fn lemma_heads_grouped(layer: LinearAttention)
    requires
        layer.num_k_heads >= 1,
        layer.num_v_heads >= 1,
        layer.num_v_heads as int % layer.num_k_heads as int == 0,
    ensures
        layer.query_heads() == layer.num_v_heads,
        layer.num_k_heads * layer.group() == layer.num_v_heads,
{
    let (nk, nv) = (layer.num_k_heads as int, layer.num_v_heads as int);
    lemma_fundamental_div_mod(nv, nk);
    let g = nv / nk;
    assert(nk * g == nv);
    assert(g >= 1) by (nonlinear_arith)
        requires
            nk * g == nv,
            nv >= 1,
            nk >= 1,
    ;
    if g == 1 {
        assert(nk * g == nk) by (nonlinear_arith)
            requires
                g == 1,
        ;
    }
}

/// The numbers that a layer hands to the recurrence, and those that it keeps, at one token, one head and one
/// channel, with `products` the products of that channel's last inputs and the weights.
pub proof fn lemma_forwarded_at(
    layer: LinearAttention,
    x: TensorView,
    before: GdnLayerCache,
    after: GdnLayerCache,
    s: GdnInputs,
    products: Seq<int>,
    b: int,
    t: int,
    h: int,
    d: int,
    e: int,
    c: int,
    i: int,
)
    requires
        layer.wf(),
        x.dims.len() == 3,
        before.wf(),
        s.fits(),
        layer.forwarded(x, before, after, s),
        layer.key_dim == layer.num_k_heads * layer.head_k_dim,
        layer.value_dim == layer.num_v_heads * layer.head_v_dim,
        layer.num_v_heads as int % layer.num_k_heads as int == 0,
        before.seqlen_offset > 0 && x.dims[1] == 1 ==> {
            let held = tensor_view(before.conv_state);
            &&& held.device == x.device
            &&& held.dims == seq![x.dims[0], (layer.key_dim * 2 + layer.value_dim) as nat, held.dims[2]]
            &&& held.dims[2] + 1 >= layer.conv_kernel_size
        },
        tensor_view(layer.dt_bias).fits(),
        tensor_view(layer.dt_bias).dims == seq![layer.num_v_heads as nat],
        0 <= b < x.dims[0],
        0 <= t < x.dims[1],
        0 <= h < layer.num_v_heads,
        0 <= d < layer.head_k_dim,
        0 <= e < layer.head_v_dim,
        0 <= c < layer.key_dim * 2 + layer.value_dim,
        products.len() == layer.conv_kernel_size,
        forall|j: int|
            0 <= j < products.len() ==> #[trigger] products[j] == {
                let mixed = layer.qkv.applied(x);
                let (w, held) = (tensor_view(layer.conv1d_weight), tensor_view(before.conv_state));
                let k = layer.conv_kernel_size as int;
                let n = t - k + 1 + j;
                times(
                    mixed.device,
                    held.dtype,
                    if n >= 0 {
                        rounded_elem(mixed, held.dtype, mixed.at3(b, n, c))
                    } else if before.seqlen_offset > 0 && mixed.dims[1] == 1 {
                        held.at3(b, c, held.dims[2] + n)
                    } else {
                        0
                    },
                    rounded_elem(w, held.dtype, w.at2(c, j)),
                )
            },
    ensures
        ({
            let mixed = layer.qkv.applied(x);
            let held = tensor_view(before.conv_state);
            let after = tensor_view(after.conv_state);
            let k = layer.conv_kernel_size as int;
            let value = silu_of(mixed.device, held.dtype, row_sum(mixed.device, held.dtype, products));
            let (q, key, v) = (
                tensor_view(s.heads.q),
                tensor_view(s.heads.k),
                tensor_view(s.heads.v),
            );
            let (z, beta, biased) = (
                tensor_view(s.z),
                tensor_view(s.b),
                tensor_view(s.biased),
            );
            let (dk, dv) = (layer.head_k_dim as nat, layer.head_v_dim as nat);
            let (batch, tokens, n) = (x.dims[0], x.dims[1], layer.num_v_heads as nat);
            let g = h % layer.num_k_heads as int;
            let (alpha, bias) = (layer.alpha.applied(x), tensor_view(layer.dt_bias));
            let goes_on = before.seqlen_offset > 0 && tokens == 1;
            let width = if goes_on {
                held.dims[2] as int
            } else {
                k
            };
            let last = tokens - width + i;
            &&& q.dims == seq![batch, tokens, n, dk]
            &&& key.dims == seq![batch, tokens, n, dk]
            &&& v.dims == seq![batch, tokens, n, dv]
            &&& z.dims == seq![batch, tokens, n, dv]
            &&& beta.dims == seq![batch, tokens, n]
            &&& biased.dims == seq![batch, tokens, n]
            &&& q.dtype == held.dtype && key.dtype == held.dtype && v.dtype == held.dtype
            &&& biased.dtype == Dtype::F32
            &&& z.dtype == x.dtype && beta.dtype == x.dtype
            &&& c == g * dk + d ==> q.at4(b, t, h, d) == value
            &&& c == layer.key_dim + g * dk + d ==> key.at4(b, t, h, d) == value
            &&& c == layer.key_dim * 2 + h * dv + e ==> v.at4(b, t, h, e) == value
            &&& z.at4(b, t, h, e) == layer.z.applied(x).at3(b, t, h * dv + e)
            &&& beta.at3(b, t, h) == layer.beta.applied(x).at3(b, t, h)
            &&& biased.at3(b, t, h) == plus(
                alpha.device,
                Dtype::F32,
                rounded_elem(alpha, Dtype::F32, alpha.at3(b, t, h)),
                rounded_elem(bias, Dtype::F32, bias.elems[h]),
            )
            &&& after.dims == seq![
                batch,
                (layer.key_dim * 2 + layer.value_dim) as nat,
                width as nat,
            ]
            &&& after.dtype == held.dtype
            &&& 0 <= i < width ==> after.at3(b, c, i) == if last >= 0 {
                rounded_elem(mixed, held.dtype, mixed.at3(b, last, c))
            } else if goes_on {
                held.at3(b, c, held.dims[2] + last)
            } else {
                0
            }
        }),
{
    let made = choose|made: TensorView| #[trigger] layer.forwards(x, before, s, made);
    let mixed = layer.qkv.applied(x);
    lemma_mapped3(layer.qkv.weight(), x);
    lemma_mapped3(layer.z.weight(), x);
    lemma_mapped3(layer.alpha.weight(), x);
    lemma_mapped3(layer.beta.weight(), x);
    lemma_heads_grouped(layer);
    lemma_mixed_at(layer, mixed, before, tensor_view(after.conv_state), made, b, t, c, i);
    let w = tensor_view(layer.conv1d_weight);
    let state = tensor_view(before.conv_state);
    let k = layer.conv_kernel_size as int;
    let goes_on = before.seqlen_offset > 0 && mixed.dims[1] == 1;
    let input = |n: int|
        if n >= 0 {
            rounded_elem(mixed, state.dtype, mixed.at3(b, n, c))
        } else if goes_on {
            state.at3(b, c, state.dims[2] + n)
        } else {
            0
        };
    assert(products =~= Seq::new(
        k as nat,
        |j: int|
            times(
                mixed.device,
                state.dtype,
                input(t - k + 1 + j),
                rounded_elem(w, state.dtype, w.at2(c, j)),
            ),
    ));
    let nv = layer.num_v_heads as int;
    assert(h % nv == h) by (nonlinear_arith)
        requires
            0 <= h < nv,
    ;
    lemma_split_at(
        layer.z.applied(x),
        layer.num_v_heads as nat,
        layer.head_v_dim as nat,
        b,
        t,
        h,
        e,
    );
    let a = layer.decays(x);
    assert(tensor_view(s.biased) == layer.biased(a));
    law_softplus_input(layer, a, b, t, h);
    lemma_at1(tensor_view(layer.dt_bias), h);
}

/// What a layer hands to the recurrence, and what it keeps, at one token, one head and one channel. With
/// `products` the products of the channel's last inputs and the weights, which the convolution sums and
/// activates, that is the channel's number; the first channels are the queries, then come the keys and the
/// values, and value head `h` has the query and the key of head `h % num_k_heads`.
pub proof fn law_layer_values(
    layer: LinearAttention,
    x: Tensor,
    cache: &mut GdnLayerCache,
    r: Result<GdnInputs, ModelError>,
    products: Seq<int>,
    b: int,
    t: int,
    h: int,
    d: int,
    e: int,
    c: int,
    i: int,
)
    requires
        layer.wf(),
        tensor_view(x).fits(),
        tensor_view(x).dims.len() == 3,
        tensor_view(old(cache).conv_state).fits(),
        tensor_view(old(cache).recurrent_state).fits(),
        call_ensures(LinearAttention::forward, (&layer, &x, cache), r),
        layer.key_dim == layer.num_k_heads * layer.head_k_dim,
        layer.value_dim == layer.num_v_heads * layer.head_v_dim,
        layer.num_v_heads as int % layer.num_k_heads as int == 0,
        old(cache).seqlen_offset > 0 && tensor_view(x).dims[1] == 1 ==> {
            let held = tensor_view(old(cache).conv_state);
            &&& held.device == tensor_view(x).device
            &&& held.dims == seq![
                tensor_view(x).dims[0],
                (layer.key_dim * 2 + layer.value_dim) as nat,
                held.dims[2],
            ]
            &&& held.dims[2] + 1 >= layer.conv_kernel_size
        },
        tensor_view(layer.dt_bias).fits(),
        tensor_view(layer.dt_bias).dims == seq![layer.num_v_heads as nat],
        0 <= b < tensor_view(x).dims[0],
        0 <= t < tensor_view(x).dims[1],
        0 <= h < layer.num_v_heads,
        0 <= d < layer.head_k_dim,
        0 <= e < layer.head_v_dim,
        0 <= c < layer.key_dim * 2 + layer.value_dim,
        products.len() == layer.conv_kernel_size,
        forall|j: int|
            0 <= j < products.len() ==> #[trigger] products[j] == {
                let mixed = layer.qkv.applied(tensor_view(x));
                let (w, held) = (tensor_view(layer.conv1d_weight), tensor_view(old(cache).conv_state));
                let k = layer.conv_kernel_size as int;
                let n = t - k + 1 + j;
                times(
                    mixed.device,
                    held.dtype,
                    if n >= 0 {
                        rounded_elem(mixed, held.dtype, mixed.at3(b, n, c))
                    } else if old(cache).seqlen_offset > 0 && mixed.dims[1] == 1 {
                        held.at3(b, c, held.dims[2] + n)
                    } else {
                        0
                    },
                    rounded_elem(w, held.dtype, w.at2(c, j)),
                )
            },
    ensures
        call_requires(LinearAttention::forward, (&layer, &x, cache)),
        final(cache).recurrent_state == old(cache).recurrent_state,
        final(cache).seqlen_offset == old(cache).seqlen_offset,
        r is Ok ==> {
            let mixed = layer.qkv.applied(tensor_view(x));
            let held = tensor_view(old(cache).conv_state);
            let after = tensor_view(final(cache).conv_state);
            let k = layer.conv_kernel_size as int;
            let value = silu_of(mixed.device, held.dtype, row_sum(mixed.device, held.dtype, products));
            let (q, key, v) = (
                tensor_view(r->Ok_0.heads.q),
                tensor_view(r->Ok_0.heads.k),
                tensor_view(r->Ok_0.heads.v),
            );
            let (z, beta, biased) = (
                tensor_view(r->Ok_0.z),
                tensor_view(r->Ok_0.b),
                tensor_view(r->Ok_0.biased),
            );
            let (dk, dv) = (layer.head_k_dim as nat, layer.head_v_dim as nat);
            let (batch, tokens) = (tensor_view(x).dims[0], tensor_view(x).dims[1]);
            let n = layer.num_v_heads as nat;
            let g = h % layer.num_k_heads as int;
            let (alpha, bias) = (layer.alpha.applied(tensor_view(x)), tensor_view(layer.dt_bias));
            let goes_on = old(cache).seqlen_offset > 0 && tokens == 1;
            let width = if goes_on {
                held.dims[2] as int
            } else {
                k
            };
            let last = tokens - width + i;
            &&& q.dims == seq![batch, tokens, n, dk]
            &&& key.dims == seq![batch, tokens, n, dk]
            &&& v.dims == seq![batch, tokens, n, dv]
            &&& z.dims == seq![batch, tokens, n, dv]
            &&& beta.dims == seq![batch, tokens, n]
            &&& biased.dims == seq![batch, tokens, n]
            &&& q.dtype == held.dtype && key.dtype == held.dtype && v.dtype == held.dtype
            &&& biased.dtype == Dtype::F32
            &&& z.dtype == tensor_view(x).dtype && beta.dtype == tensor_view(x).dtype
            &&& c == g * dk + d ==> q.at4(b, t, h, d) == value
            &&& c == layer.key_dim + g * dk + d ==> key.at4(b, t, h, d) == value
            &&& c == layer.key_dim * 2 + h * dv + e ==> v.at4(b, t, h, e) == value
            &&& z.at4(b, t, h, e) == layer.z.applied(tensor_view(x)).at3(b, t, h * dv + e)
            &&& beta.at3(b, t, h) == layer.beta.applied(tensor_view(x)).at3(b, t, h)
            &&& biased.at3(b, t, h) == plus(
                alpha.device,
                Dtype::F32,
                rounded_elem(alpha, Dtype::F32, alpha.at3(b, t, h)),
                rounded_elem(bias, Dtype::F32, bias.elems[h]),
            )
            &&& after.dims == seq![
                batch,
                (layer.key_dim * 2 + layer.value_dim) as nat,
                width as nat,
            ]
            &&& after.dtype == held.dtype
            &&& 0 <= i < width ==> after.at3(b, c, i) == if last >= 0 {
                rounded_elem(mixed, held.dtype, mixed.at3(b, last, c))
            } else if goes_on {
                held.at3(b, c, held.dims[2] + last)
            } else {
                0
            }
        },
{
    if r is Ok {
        lemma_forwarded_at(
            layer,
            tensor_view(x),
            *old(cache),
            *final(cache),
            r->Ok_0,
            products,
            b,
            t,
            h,
            d,
            e,
            c,
            i,
        );
    }
}

/// A layer whose weights have the sizes of its heads takes all sequences of packed single-precision rows
/// that keep within memory: from the start with any cache, and going on with one that reaches back as far
/// as the kernel.
pub proof fn law_layer_succeeds(
    layer: LinearAttention,
    x: Tensor,
    cache: &mut GdnLayerCache,
    r: Result<GdnInputs, ModelError>,
)
    requires
        layer.wf(),
        tensor_view(x).fits(),
        tensor_view(old(cache).conv_state).fits(),
        tensor_view(old(cache).recurrent_state).fits(),
        tensor_view(x).dims.len() == 3,
        tensor_view(x).dims[1] > 0,
        tensor_view(x).dtype == Dtype::F32,
        packed(x),
        call_ensures(LinearAttention::forward, (&layer, &x, cache), r),
        layer.key_dim == layer.num_k_heads * layer.head_k_dim,
        layer.value_dim == layer.num_v_heads * layer.head_v_dim,
        layer.key_dim > 0,
        layer.value_dim > 0,
        layer.num_v_heads as int % layer.num_k_heads as int == 0,
        ({
            let (v, n) = (tensor_view(x), layer.num_v_heads as nat);
            let channels = (layer.key_dim * 2 + layer.value_dim) as nat;
            let k = layer.conv_kernel_size as nat;
            let (w, bias) = (tensor_view(layer.conv1d_weight), tensor_view(layer.dt_bias));
            let state = tensor_view(old(cache).conv_state);
            let goes_on = old(cache).seqlen_offset > 0 && v.dims[1] == 1;
            let width = if goes_on {
                state.dims[2]
            } else {
                (k - 1) as nat
            };
            &&& layer.qkv.weight().dims == seq![channels, v.dims[2]]
            &&& layer.z.weight().dims == seq![layer.value_dim as nat, v.dims[2]]
            &&& layer.beta.weight().dims == seq![n, v.dims[2]]
            &&& layer.alpha.weight().dims == seq![n, v.dims[2]]
            &&& w.dims == seq![channels, k] && w.dtype.floating()
            &&& bias.dims == seq![n] && bias.dtype.floating()
            &&& state.dtype.floating()
            &&& goes_on ==> state.dims == seq![v.dims[0], channels, state.dims[2]] && state.dims[2]
                + 1 >= k
            &&& extent(seq![v.dims[0], v.dims[1], channels]) <= MAX_ELEMENTS
            &&& extent(seq![v.dims[0], channels, width + v.dims[1]]) <= MAX_ELEMENTS
            &&& extent(seq![v.dims[0], v.dims[1], n]) <= MAX_ELEMENTS
            &&& extent(seq![v.dims[0], v.dims[1], n, layer.head_k_dim as nat]) <= MAX_ELEMENTS
        }),
    ensures
        call_requires(LinearAttention::forward, (&layer, &x, cache)),
        r is Ok,
{
    lemma_layer_takes(layer, x, *old(cache));
}

/// Such a layer takes such sequences.
pub proof fn lemma_layer_takes(layer: LinearAttention, x: Tensor, cache: GdnLayerCache)
    requires
        layer.wf(),
        tensor_view(x).dims.len() == 3,
        tensor_view(x).dims[1] > 0,
        tensor_view(x).dtype == Dtype::F32,
        packed(x),
        layer.key_dim == layer.num_k_heads * layer.head_k_dim,
        layer.value_dim == layer.num_v_heads * layer.head_v_dim,
        layer.key_dim > 0,
        layer.value_dim > 0,
        layer.num_v_heads as int % layer.num_k_heads as int == 0,
        ({
            let (v, n) = (tensor_view(x), layer.num_v_heads as nat);
            let channels = (layer.key_dim * 2 + layer.value_dim) as nat;
            let k = layer.conv_kernel_size as nat;
            let (w, bias) = (tensor_view(layer.conv1d_weight), tensor_view(layer.dt_bias));
            let state = tensor_view(cache.conv_state);
            let goes_on = cache.seqlen_offset > 0 && v.dims[1] == 1;
            let width = if goes_on {
                state.dims[2]
            } else {
                (k - 1) as nat
            };
            &&& layer.qkv.weight().dims == seq![channels, v.dims[2]]
            &&& layer.z.weight().dims == seq![layer.value_dim as nat, v.dims[2]]
            &&& layer.beta.weight().dims == seq![n, v.dims[2]]
            &&& layer.alpha.weight().dims == seq![n, v.dims[2]]
            &&& w.dims == seq![channels, k] && w.dtype.floating()
            &&& bias.dims == seq![n] && bias.dtype.floating()
            &&& state.dtype.floating()
            &&& goes_on ==> state.dims == seq![v.dims[0], channels, state.dims[2]] && state.dims[2]
                + 1 >= k
            &&& extent(seq![v.dims[0], v.dims[1], channels]) <= MAX_ELEMENTS
            &&& extent(seq![v.dims[0], channels, width + v.dims[1]]) <= MAX_ELEMENTS
            &&& extent(seq![v.dims[0], v.dims[1], n]) <= MAX_ELEMENTS
            &&& extent(seq![v.dims[0], v.dims[1], n, layer.head_k_dim as nat]) <= MAX_ELEMENTS
        }),
    ensures
        layer.forwardable(x, cache),
        cache.continues(tensor_view(x).dims[1]) ==> cache.reaches(layer.conv_kernel_size as nat),
{
    let v = tensor_view(x);
    let c = layer.channels();
    let (nv, dv) = (layer.num_v_heads as int, layer.head_v_dim as int);
    assert(nv > 0) by (nonlinear_arith)
        requires
            nv * dv > 0,
            nv >= 0,
    ;
    lemma_heads_grouped(layer);
    lemma_extent_shorter(v.dims[0], v.dims[1], layer.value_dim as nat, c);
    lemma_mapped3(layer.qkv.weight(), v);
    lemma_mapped3(layer.z.weight(), v);
    lemma_mapped3(layer.beta.weight(), v);
    lemma_mapped3(layer.alpha.weight(), v);
    layer.qkv.law_accepts_single();
    layer.z.law_accepts_single();
    layer.beta.law_accepts_single();
    layer.alpha.law_accepts_single();
    assert(layer.qkv.ready(x));
    assert(layer.z.ready(x));
    let mixed = layer.qkv.applied(v);
    assert(layer.conv_x(mixed).dims =~= seq![v.dims[0], v.dims[1], c]);
}

/// One number of the heads' outputs, normalised, gated and put side by side.
proof fn lemma_normed_at(
    layer: LinearAttention,
    y: TensorView,
    z: TensorView,
    b: int,
    t: int,
    h: int,
    d: int,
)
    requires
        y.fits(),
        z.fits(),
        y.dims.len() == 4,
        z.dims == y.dims,
        y.dims[2] == layer.num_v_heads,
        y.dims[3] == layer.head_v_dim,
        layer.value_dim == layer.num_v_heads * layer.head_v_dim,
        tensor_view(layer.norm.weight).fits(),
        tensor_view(layer.norm.weight).dims == seq![layer.head_v_dim as nat],
        y.device == z.device == tensor_view(layer.norm.weight).device,
        0 <= b < y.dims[0],
        0 <= t < y.dims[1],
        0 <= h < y.dims[2],
        0 <= d < y.dims[3],
    ensures
        layer.normable(y, z),
        layer.normed_rows(y, z).dims == seq![y.dims[0], y.dims[1], layer.value_dim as nat],
        layer.normed_rows(y, z).dtype == y.dtype,
        layer.normed_rows(y, z).device == y.device,
        layer.normed_rows(y, z).at3(b, t, h * layer.head_v_dim + d) == {
            let weight = tensor_view(layer.norm.weight);
            let single = Dtype::F32;
            let squares = Seq::new(
                y.dims[3],
                |j: int|
                    squared(
                        y.device,
                        single,
                        rounded_elem(y, single, y.at4(b, t, h, j)),
                    ),
            );
            let rms = root(
                y.device,
                single,
                shifted(
                    y.device,
                    single,
                    row_mean(y.device, single, squares),
                    layer.norm.eps,
                ),
            );
            let n = times(
                y.device,
                single,
                times(
                    y.device,
                    single,
                    over(y.device, single, rounded_elem(y, single, y.at4(b, t, h, d)), rms),
                    rounded_elem(weight, single, weight.elems[d]),
                ),
                silu_of(y.device, single, rounded_elem(z, single, z.at4(b, t, h, d))),
            );
            if y.dtype == single {
                n
            } else {
                rounded(y.device, single, y.dtype, n)
            }
        },
{
    law_heads_normed(layer, y, z, b, t, h, d);
    let single = Dtype::F32;
    let row = Seq::new(y.dims[3], |j: int| rounded_elem(y, single, y.at4(b, t, h, j)));
    assert(row.map_values(|a: int| squared(y.device, single, a)) =~= Seq::new(
        y.dims[3],
        |j: int| squared(y.device, single, rounded_elem(y, single, y.at4(b, t, h, j))),
    ));
    lemma_at1(tensor_view(layer.norm.weight), d);
}

/// What a call gives: each head's output over the root of its mean square (`eps` added), times the weight of
/// its place, times the SiLU of its gate, in single precision and rounded to the type of the output, in the
/// token's row at the place of its head.
pub proof fn law_normed_values(
    layer: LinearAttention,
    y: Tensor,
    z: Tensor,
    r: Result<Tensor, ModelError>,
    b: int,
    t: int,
    h: int,
    d: int,
)
    requires
        tensor_view(y).fits(),
        tensor_view(z).fits(),
        tensor_view(y).dims.len() == 4,
        tensor_view(z).dims == tensor_view(y).dims,
        tensor_view(y).dims[2] == layer.num_v_heads,
        tensor_view(y).dims[3] == layer.head_v_dim,
        layer.value_dim == layer.num_v_heads * layer.head_v_dim,
        tensor_view(layer.norm.weight).fits(),
        tensor_view(layer.norm.weight).dims == seq![layer.head_v_dim as nat],
        tensor_view(y).device == tensor_view(z).device == tensor_view(layer.norm.weight).device,
        call_ensures(LinearAttention::norm_rows, (&layer, &y, &z), r),
        0 <= b < tensor_view(y).dims[0],
        0 <= t < tensor_view(y).dims[1],
        0 <= h < layer.num_v_heads,
        0 <= d < layer.head_v_dim,
    ensures
        call_requires(LinearAttention::norm_rows, (&layer, &y, &z)),
        tensor_view(y).dtype.floating() && tensor_view(z).dtype.floating() && tensor_view(
            layer.norm.weight,
        ).dtype.floating() ==> r is Ok,
        r is Ok ==> tensor_view(r->Ok_0).dims == seq![
            tensor_view(y).dims[0],
            tensor_view(y).dims[1],
            layer.value_dim as nat,
        ] && tensor_view(r->Ok_0).dtype == tensor_view(y).dtype,
        r is Ok ==> tensor_view(r->Ok_0).at3(b, t, h * layer.head_v_dim + d) == {
            let weight = tensor_view(layer.norm.weight);
            let single = Dtype::F32;
            let squares = Seq::new(
                tensor_view(y).dims[3],
                |j: int|
                    squared(
                        tensor_view(y).device,
                        single,
                        rounded_elem(tensor_view(y), single, tensor_view(y).at4(b, t, h, j)),
                    ),
            );
            let rms = root(
                tensor_view(y).device,
                single,
                shifted(
                    tensor_view(y).device,
                    single,
                    row_mean(tensor_view(y).device, single, squares),
                    layer.norm.eps,
                ),
            );
            let n = times(
                tensor_view(y).device,
                single,
                times(
                    tensor_view(y).device,
                    single,
                    over(
                        tensor_view(y).device,
                        single,
                        rounded_elem(tensor_view(y), single, tensor_view(y).at4(b, t, h, d)),
                        rms,
                    ),
                    rounded_elem(weight, single, weight.elems[d]),
                ),
                silu_of(
                    tensor_view(y).device,
                    single,
                    rounded_elem(tensor_view(z), single, tensor_view(z).at4(b, t, h, d)),
                ),
            );
            if tensor_view(y).dtype == single {
                n
            } else {
                rounded(tensor_view(y).device, single, tensor_view(y).dtype, n)
            }
        },
{
    lemma_normed_at(layer, tensor_view(y), tensor_view(z), b, t, h, d);
}

/// Rows whose numbers are the heads' outputs, normalised and gated, in single precision, are those that the
/// last linear map is applied to.
pub proof fn lemma_single_rows(
    layer: LinearAttention,
    y: TensorView,
    z: TensorView,
    rows: TensorView,
)
    requires
        y.fits(),
        z.fits(),
        y.dims.len() == 4,
        z.dims == y.dims,
        y.dims[2] == layer.num_v_heads,
        y.dims[3] == layer.head_v_dim,
        layer.value_dim == layer.num_v_heads * layer.head_v_dim,
        tensor_view(layer.norm.weight).fits(),
        tensor_view(layer.norm.weight).dims == seq![layer.head_v_dim as nat],
        y.device == z.device == tensor_view(layer.norm.weight).device,
        product(y.dims) > 0,
        rows.dims == seq![y.dims[0], y.dims[1], layer.value_dim as nat],
        rows.dtype == Dtype::F32,
        rows.device == y.device,
        rows.elems.len() == product(rows.dims),
        forall|b: int, t: int, c: int|
            0 <= b < rows.dims[0] && 0 <= t < rows.dims[1] && 0 <= c < rows.dims[2]
                ==> #[trigger] rows.at3(b, t, c) == {
                let (h, d) = (c / y.dims[3] as int, c % y.dims[3] as int);
                let v = {
            let weight = tensor_view(layer.norm.weight);
            let single = Dtype::F32;
            let squares = Seq::new(
                y.dims[3],
                |j: int|
                    squared(
                        y.device,
                        single,
                        rounded_elem(y, single, y.at4(b, t, h, j)),
                    ),
            );
            let rms = root(
                y.device,
                single,
                shifted(
                    y.device,
                    single,
                    row_mean(y.device, single, squares),
                    layer.norm.eps,
                ),
            );
            let n = times(
                y.device,
                single,
                times(
                    y.device,
                    single,
                    over(y.device, single, rounded_elem(y, single, y.at4(b, t, h, d)), rms),
                    rounded_elem(weight, single, weight.elems[d]),
                ),
                silu_of(y.device, single, rounded_elem(z, single, z.at4(b, t, h, d))),
            );
            if y.dtype == single {
                n
            } else {
                rounded(y.device, single, y.dtype, n)
            }
        };
                if y.dtype == Dtype::F32 {
                    v
                } else {
                    rounded(y.device, y.dtype, Dtype::F32, v)
                }
            },
    ensures
        layer.normable(y, z),
        rows == layer.single_rows(y, z),
{
    let made = layer.single_rows(y, z);
    let plain = layer.normed_rows(y, z);
    let dim = y.dims[3] as int;
    let heads = y.dims[2] as int;
    lemma_product_zero(y.dims);
    assert(y.dims[0] != 0 && y.dims[1] != 0 && y.dims[2] != 0 && y.dims[3] != 0);
    lemma_normed_at(layer, y, z, 0, 0, 0, 0);
    assert(reshapable(layer.normed(y, z), row_dims(z, layer.value_dim as nat)));
    assert forall|b: int, t: int, c: int|
        0 <= b < rows.dims[0] && 0 <= t < rows.dims[1] && 0 <= c
            < rows.dims[2] implies #[trigger] rows.at3(b, t, c) == made.at3(b, t, c) by {
        let (h, d) = (c / dim, c % dim);
        lemma_fundamental_div_mod(c, dim);
        assert(dim * h == h * dim) by (nonlinear_arith);
        assert(0 <= h < heads) by (nonlinear_arith)
            requires
                0 <= c < heads * dim,
                c == h * dim + d,
                0 <= d < dim,
        ;
        lemma_normed_at(layer, y, z, b, t, h, d);
        lemma_in_range3(plain.dims, b, t, c);
        lemma_converted_at(plain, Dtype::F32, seq![b, t, c]);
    }
    lemma_equal3(rows, made);
}

/// What the layer gives after the recurrence, and what becomes of the cache: what `out` makes of `rows`, the
/// heads' outputs, normalised and gated, in single precision, is given in the type of the recurrence's
/// output; the cache takes the new state and counts the tokens.
pub proof fn law_concluded_values(
    layer: LinearAttention,
    y: Tensor,
    state: Tensor,
    z: Tensor,
    cache: &mut GdnLayerCache,
    r: Result<Tensor, ModelError>,
    s: Result<Tensor, ModelError>,
    rows: TensorView,
    p: int,
)
    requires
        layer.wf(),
        tensor_view(y).fits(),
        tensor_view(z).fits(),
        tensor_view(y).dims.len() == 4,
        tensor_view(z).dims == tensor_view(y).dims,
        tensor_view(y).dims[2] == layer.num_v_heads,
        tensor_view(y).dims[3] == layer.head_v_dim,
        layer.value_dim == layer.num_v_heads * layer.head_v_dim,
        tensor_view(layer.norm.weight).fits(),
        tensor_view(layer.norm.weight).dims == seq![layer.head_v_dim as nat],
        tensor_view(y).device == tensor_view(z).device == tensor_view(layer.norm.weight).device,
        product(tensor_view(y).dims) > 0,
        old(cache).seqlen_offset + tensor_view(z).dims[1] <= usize::MAX,
        call_ensures(LinearAttention::conclude, (&layer, &y, state, &z, cache), r),
        call_ensures(LinearAttention::finish, (&layer, &y, &z), s),
        rows.dims == seq![
            tensor_view(y).dims[0],
            tensor_view(y).dims[1],
            layer.value_dim as nat,
        ],
        rows.dtype == Dtype::F32,
        rows.device == tensor_view(y).device,
        rows.elems.len() == product(rows.dims),
        forall|b: int, t: int, c: int|
            0 <= b < rows.dims[0] && 0 <= t < rows.dims[1] && 0 <= c < rows.dims[2]
                ==> #[trigger] rows.at3(b, t, c) == {
                let (h, d) = (
                    c / tensor_view(y).dims[3] as int,
                    c % tensor_view(y).dims[3] as int,
                );
                let v = {
            let weight = tensor_view(layer.norm.weight);
            let single = Dtype::F32;
            let squares = Seq::new(
                tensor_view(y).dims[3],
                |j: int|
                    squared(
                        tensor_view(y).device,
                        single,
                        rounded_elem(tensor_view(y), single, tensor_view(y).at4(b, t, h, j)),
                    ),
            );
            let rms = root(
                tensor_view(y).device,
                single,
                shifted(
                    tensor_view(y).device,
                    single,
                    row_mean(tensor_view(y).device, single, squares),
                    layer.norm.eps,
                ),
            );
            let n = times(
                tensor_view(y).device,
                single,
                times(
                    tensor_view(y).device,
                    single,
                    over(
                        tensor_view(y).device,
                        single,
                        rounded_elem(tensor_view(y), single, tensor_view(y).at4(b, t, h, d)),
                        rms,
                    ),
                    rounded_elem(weight, single, weight.elems[d]),
                ),
                silu_of(
                    tensor_view(y).device,
                    single,
                    rounded_elem(tensor_view(z), single, tensor_view(z).at4(b, t, h, d)),
                ),
            );
            if tensor_view(y).dtype == single {
                n
            } else {
                rounded(tensor_view(y).device, single, tensor_view(y).dtype, n)
            }
        };
                if tensor_view(y).dtype == Dtype::F32 {
                    v
                } else {
                    rounded(tensor_view(y).device, tensor_view(y).dtype, Dtype::F32, v)
                }
            },
        0 <= p < layer.out.applied(rows).elems.len(),
    ensures
        call_requires(LinearAttention::conclude, (&layer, &y, state, &z, cache)),
        call_requires(LinearAttention::finish, (&layer, &y, &z)),
        final(cache).conv_state == old(cache).conv_state,
        final(cache).recurrent_state == state,
        final(cache).seqlen_offset == old(cache).seqlen_offset + tensor_view(z).dims[1],
        tensor_view(y).dtype.floating() && tensor_view(z).dtype.floating() && tensor_view(
            layer.norm.weight,
        ).dtype.floating() && layer.out.takes(rows) ==> r is Ok && s is Ok,
        ({
            let mapped = layer.out.applied(rows);
            &&& r is Ok ==> tensor_view(r->Ok_0).dims == mapped.dims && tensor_view(r->Ok_0).dtype
                == tensor_view(y).dtype && tensor_view(r->Ok_0).elems[p] == rounded_elem(
                mapped,
                tensor_view(y).dtype,
                mapped.elems[p],
            )
            &&& s is Ok ==> tensor_view(s->Ok_0).dims == mapped.dims && tensor_view(s->Ok_0).dtype
                == tensor_view(y).dtype && tensor_view(s->Ok_0).elems[p] == rounded_elem(
                mapped,
                tensor_view(y).dtype,
                mapped.elems[p],
            )
        }),
{
    lemma_single_rows(layer, tensor_view(y), tensor_view(z), rows);
}

/// Rows that one of the four linear maps does not take are refused, and leave the cache as it was.
pub proof fn law_refused_rows_keep_cache(
    layer: LinearAttention,
    x: Tensor,
    cache: &mut GdnLayerCache,
    r: Result<GdnInputs, ModelError>,
)
    requires
        call_ensures(LinearAttention::forward, (&layer, &x, cache), r),
        !layer.qkv.ready(x) || !layer.z.ready(x) || !layer.beta.ready(x) || !layer.alpha.ready(x),
    ensures
        r is Err,
        final(cache).conv_state == old(cache).conv_state,
        final(cache).recurrent_state == old(cache).recurrent_state,
        final(cache).seqlen_offset == old(cache).seqlen_offset,
{
}

} // verus!
