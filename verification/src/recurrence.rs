//! The recurrence on heads laid out one behind the other, and back.
use vstd::prelude::*;
use candle_core::scalar::Scalar;
use candle_core::Tensor;
use crate::candle::{converted, is, scaled, tensor_view};
use crate::coords::{
    lemma_at2, lemma_at3, lemma_at4, lemma_converted_at, lemma_in_range3, lemma_in_range4,
    lemma_mapped_at, lemma_transposed3, lemma_transposed4, rounded_elem,
};
use crate::error::ModelError;
use crate::heads::lemma_swap;
use crate::linear_attention::LinearAttention;
use crate::ops;
use crate::ops::{reshapable, scales};
use crate::shape::{
    extent, lemma_position2, lemma_position3, lemma_position4, lemma_position_bounds,
    lemma_product_within_extent, product, shape,
};
use crate::view::{Dtype, TensorView};

verus! {

/// From this many tokens on the recurrence is computed in chunks.
pub const CHUNKED_FROM: usize = 64;

/// The inputs of the recurrence, in single precision, with one line for each head of each sequence.
pub struct FlatRecurrence {
    pub q: Tensor,
    pub k: Tensor,
    pub v: Tensor,
    pub g: Tensor,
    pub beta: Tensor,
    pub state: Tensor,
    /// Whether the tokens are to be processed in chunks.
    pub chunked: bool,
}

/// `v` with heads before tokens. A single token needs no turning.
pub open spec fn turned(v: TensorView, seq_len: nat) -> TensorView {
    if seq_len == 1 {
        v
    } else {
        v.transposed(1, 2)
    }
}

/// `v` can be laid out in `lines` lines of `seq_len` tokens of `dim` numbers.
pub open spec fn flattens(v: TensorView, lines: nat, seq_len: nat, dim: nat) -> bool {
    &&& seq_len != 1 ==> v.dims.len() >= 3
    &&& reshapable(turned(v, seq_len), seq![lines, seq_len, dim])
}

/// `v` laid out in `lines` lines of `seq_len` tokens of `dim` numbers.
pub open spec fn flat_heads(v: TensorView, lines: nat, seq_len: nat, dim: nat) -> TensorView {
    converted(turned(v, seq_len), Dtype::F32).reshaped(seq![lines, seq_len, dim])
}

/// `v` can be laid out in `lines` lines of one number for each of `seq_len` tokens.
pub open spec fn flattens_gates(v: TensorView, lines: nat, seq_len: nat) -> bool {
    &&& seq_len != 1 ==> v.dims.len() >= 3
    &&& reshapable(turned(converted(v, Dtype::F32), seq_len), seq![lines, seq_len])
}

/// `v` laid out in `lines` lines of one number for each of `seq_len` tokens.
pub open spec fn flat_gates(v: TensorView, lines: nat, seq_len: nat) -> TensorView {
    turned(converted(v, Dtype::F32), seq_len).reshaped(seq![lines, seq_len])
}

proof fn lemma_unit(a: nat, b: nat)
    ensures
        product(seq![a, 1, b]) == product(seq![a, b]),
        extent(seq![a, 1, b]) == extent(seq![a, b]),
        product(seq![a, 1]) == product(seq![a]),
        extent(seq![a, 1]) == extent(seq![a]),
        seq![a, b].insert(1, 1) == seq![a, 1, b],
        seq![a].insert(1, 1) == seq![a, 1],
{
    reveal_with_fuel(product, 4);
    reveal_with_fuel(extent, 4);
    assert(seq![a, 1, b].drop_last() =~= seq![a, 1]);
    assert(seq![a, 1].drop_last() =~= seq![a]);
    assert(seq![a, b].drop_last() =~= seq![a]);
    assert(seq![a, b].insert(1, 1) =~= seq![a, 1, b]);
    assert(seq![a].insert(1, 1) =~= seq![a, 1]);
    assert(product(seq![a]) * 1 == product(seq![a]));
    assert(extent(seq![a]) * 1 == extent(seq![a]));
}

/// The heads of `x` one behind the other, in single precision.
fn flatten_heads(x: &Tensor, lines: usize, seq_len: usize, dim: usize) -> (r: Result<
    Tensor,
    ModelError,
>)
    requires
        tensor_view(*x).fits(),
    ensures
        match r {
            Ok(o) => flattens(tensor_view(*x), lines as nat, seq_len as nat, dim as nat) && is(
                o,
                flat_heads(tensor_view(*x), lines as nat, seq_len as nat, dim as nat),
            ),
            Err(_) => !(flattens(tensor_view(*x), lines as nat, seq_len as nat, dim as nat)
                && tensor_view(*x).dtype.floating()),
        },
{
    let ghost v = tensor_view(*x);
    if seq_len == 1 {
        let dims = vec![lines, dim];
        proof {
            assert(shape(dims@) =~= seq![lines as nat, dim as nat]);
            lemma_unit(lines as nat, dim as nat);
        }
        let flat = ops::reshape(x, dims)?;
        let lifted = ops::unsqueeze(&flat, 1)?;
        let o = ops::to_dtype(&lifted, Dtype::F32)?;
        proof {
            assert(tensor_view(o) =~= flat_heads(v, lines as nat, 1, dim as nat));
        }
        Ok(o)
    } else {
        let dims = vec![lines, seq_len, dim];
        proof {
            assert(shape(dims@) =~= seq![lines as nat, seq_len as nat, dim as nat]);
        }
        let t = ops::transpose(x, 1, 2)?;
        let solid = ops::contiguous(&t)?;
        let single = ops::to_dtype(&solid, Dtype::F32)?;
        ops::reshape(&single, dims)
    }
}

/// The gates of `x` one behind the other, in single precision.
fn flatten_gates(x: &Tensor, lines: usize, seq_len: usize) -> (r: Result<Tensor, ModelError>)
    requires
        tensor_view(*x).fits(),
    ensures
        match r {
            Ok(o) => flattens_gates(tensor_view(*x), lines as nat, seq_len as nat) && is(
                o,
                flat_gates(tensor_view(*x), lines as nat, seq_len as nat),
            ),
            Err(_) => !(flattens_gates(tensor_view(*x), lines as nat, seq_len as nat)
                && tensor_view(*x).dtype.floating()),
        },
{
    let ghost v = tensor_view(*x);
    if seq_len == 1 {
        let dims = vec![lines];
        proof {
            assert(shape(dims@) =~= seq![lines as nat]);
            lemma_unit(lines as nat, 0);
        }
        let flat = ops::reshape(x, dims)?;
        let lifted = ops::unsqueeze(&flat, 1)?;
        let o = ops::to_dtype(&lifted, Dtype::F32)?;
        proof {
            assert(tensor_view(o) =~= flat_gates(v, lines as nat, 1));
        }
        Ok(o)
    } else {
        let dims = vec![lines, seq_len];
        proof {
            assert(shape(dims@) =~= seq![lines as nat, seq_len as nat]);
        }
        let single = ops::to_dtype(x, Dtype::F32)?;
        let t = ops::transpose(&single, 1, 2)?;
        let solid = ops::contiguous(&t)?;
        ops::reshape(&solid, dims)
    }
}

impl LinearAttention {
    /// The lines of the recurrence: one for each value head of each sequence.
    pub open spec fn lines(self, batch: usize) -> nat {
        (batch * self.num_v_heads) as nat
    }

    /// The inputs can be laid out in lines.
    pub open spec fn recurs(
        self,
        q: TensorView,
        k: TensorView,
        v: TensorView,
        g: TensorView,
        beta: TensorView,
        state: TensorView,
        batch: usize,
        seq_len: usize,
    ) -> bool {
        let lines = self.lines(batch);
        let s = seq_len as nat;
        &&& flattens(q, lines, s, self.head_k_dim as nat)
        &&& flattens(k, lines, s, self.head_k_dim as nat)
        &&& flattens(v, lines, s, self.head_v_dim as nat)
        &&& flattens_gates(g, lines, s)
        &&& flattens_gates(beta, lines, s)
        &&& reshapable(state, seq![lines, self.head_k_dim as nat, self.head_v_dim as nat])
    }

    /// The inputs of the recurrence with one line for each head of each sequence: queries scaled by
    /// `scale`, keys, values, decay, strength and state. From [`CHUNKED_FROM`] tokens on they are to
    /// be processed in chunks.
    pub fn recurrence_inputs(
        &self,
        q: &Tensor,
        k: &Tensor,
        v: &Tensor,
        g: &Tensor,
        beta: &Tensor,
        state: &Tensor,
        batch: usize,
        seq_len: usize,
        scale: &Scalar,
    ) -> (r: Result<FlatRecurrence, ModelError>)
        requires
            tensor_view(*q).fits(),
            tensor_view(*k).fits(),
            tensor_view(*v).fits(),
            tensor_view(*g).fits(),
            tensor_view(*beta).fits(),
            tensor_view(*state).fits(),
            batch * self.num_v_heads <= usize::MAX,
        ensures
            match r {
                Ok(f) => {
                    let lines = self.lines(batch);
                    let s = seq_len as nat;
                    &&& self.recurs(
                        tensor_view(*q),
                        tensor_view(*k),
                        tensor_view(*v),
                        tensor_view(*g),
                        tensor_view(*beta),
                        tensor_view(*state),
                        batch,
                        seq_len,
                    )
                    &&& is(
                        f.q,
                        scales(
                            flat_heads(tensor_view(*q), lines, s, self.head_k_dim as nat),
                            *scale,
                        ),
                    )
                    &&& is(f.k, flat_heads(tensor_view(*k), lines, s, self.head_k_dim as nat))
                    &&& is(f.v, flat_heads(tensor_view(*v), lines, s, self.head_v_dim as nat))
                    &&& is(f.g, flat_gates(tensor_view(*g), lines, s))
                    &&& is(f.beta, flat_gates(tensor_view(*beta), lines, s))
                    &&& is(
                        f.state,
                        converted(tensor_view(*state), Dtype::F32).reshaped(
                            seq![lines, self.head_k_dim as nat, self.head_v_dim as nat],
                        ),
                    )
                    &&& f.chunked == (seq_len >= CHUNKED_FROM)
                },
                Err(_) => !(self.recurs(
                    tensor_view(*q),
                    tensor_view(*k),
                    tensor_view(*v),
                    tensor_view(*g),
                    tensor_view(*beta),
                    tensor_view(*state),
                    batch,
                    seq_len,
                ) && tensor_view(*q).dtype.floating() && tensor_view(*k).dtype.floating()
                    && tensor_view(*v).dtype.floating() && tensor_view(*g).dtype.floating()
                    && tensor_view(*beta).dtype.floating() && tensor_view(*state).dtype.floating()),
            },
    {
        let lines: usize = batch * self.num_v_heads;
        let plain = flatten_heads(q, lines, seq_len, self.head_k_dim)?;
        let q_bh = ops::mul_scalar(&plain, scale)?;
        let k_bh = flatten_heads(k, lines, seq_len, self.head_k_dim)?;
        let v_bh = flatten_heads(v, lines, seq_len, self.head_v_dim)?;
        let g_bh = flatten_gates(g, lines, seq_len)?;
        let beta_bh = flatten_gates(beta, lines, seq_len)?;
        let single = ops::to_dtype(state, Dtype::F32)?;
        let dims = vec![lines, self.head_k_dim, self.head_v_dim];
        proof {
            assert(shape(dims@) =~= seq![
                lines as nat,
                self.head_k_dim as nat,
                self.head_v_dim as nat,
            ]);
        }
        let state_flat = ops::reshape(&single, dims)?;
        Ok(
            FlatRecurrence {
                q: q_bh,
                k: k_bh,
                v: v_bh,
                g: g_bh,
                beta: beta_bh,
                state: state_flat,
                chunked: seq_len >= CHUNKED_FROM,
            },
        )
    }

    /// The lines of the recurrence's output as tokens and heads, in type `dtype`.
    pub open spec fn unflat(
        self,
        out: TensorView,
        batch: usize,
        seq_len: usize,
        dtype: Dtype,
    ) -> TensorView {
        let heads = self.num_v_heads as nat;
        let dim = self.head_v_dim as nat;
        if seq_len == 1 {
            converted(out.reshaped(seq![batch as nat, seq_len as nat, heads, dim]), dtype)
        } else {
            converted(
                out.reshaped(seq![batch as nat, heads, seq_len as nat, dim]).transposed(1, 2),
                dtype,
            )
        }
    }

    /// The lines of the recurrence's state as heads of sequences, in type `dtype`.
    pub open spec fn unflat_state(
        self,
        state: TensorView,
        batch: usize,
        dtype: Dtype,
    ) -> TensorView {
        converted(
            state.reshaped(
                seq![
                    batch as nat,
                    self.num_v_heads as nat,
                    self.head_k_dim as nat,
                    self.head_v_dim as nat,
                ],
            ),
            dtype,
        )
    }

    /// The output and the state of the recurrence, from one line for each head of each sequence
    /// back to tokens and heads, and back to their types.
    pub fn recurrence_outputs(
        &self,
        out: &Tensor,
        state: &Tensor,
        batch: usize,
        seq_len: usize,
        dtype: Dtype,
        state_dtype: Dtype,
    ) -> (r: Result<(Tensor, Tensor), ModelError>)
        requires
            tensor_view(*out).fits(),
            tensor_view(*state).fits(),
        ensures
            ({
                let heads = self.num_v_heads as nat;
                let fit = reshapable(
                    tensor_view(*out),
                    seq![batch as nat, heads, seq_len as nat, self.head_v_dim as nat],
                ) && reshapable(
                    tensor_view(*state),
                    seq![batch as nat, heads, self.head_k_dim as nat, self.head_v_dim as nat],
                );
                match r {
                    Ok((y, s)) => {
                        &&& fit
                        &&& is(y, self.unflat(tensor_view(*out), batch, seq_len, dtype))
                        &&& is(s, self.unflat_state(tensor_view(*state), batch, state_dtype))
                    },
                    Err(_) => !(fit && tensor_view(*out).dtype.floating() && tensor_view(
                        *state,
                    ).dtype.floating() && dtype.floating() && state_dtype.floating()),
                }
            }),
    {
        let heads: usize = self.num_v_heads;
        let state_dims = vec![batch, heads, self.head_k_dim, self.head_v_dim];
        proof {
            assert(shape(state_dims@) =~= seq![
                batch as nat,
                heads as nat,
                self.head_k_dim as nat,
                self.head_v_dim as nat,
            ]);
            lemma_swap(batch as nat, seq_len as nat, heads as nat, self.head_v_dim as nat);
        }
        let shaped = ops::reshape(state, state_dims)?;
        let new_state = ops::to_dtype(&shaped, state_dtype)?;
        if seq_len == 1 {
            let dims = vec![batch, seq_len, heads, self.head_v_dim];
            proof {
                assert(shape(dims@) =~= seq![
                    batch as nat,
                    seq_len as nat,
                    heads as nat,
                    self.head_v_dim as nat,
                ]);
            }
            let tokens = ops::reshape(out, dims)?;
            let y = ops::to_dtype(&tokens, dtype)?;
            Ok((y, new_state))
        } else {
            let dims = vec![batch, heads, seq_len, self.head_v_dim];
            proof {
                assert(shape(dims@) =~= seq![
                    batch as nat,
                    heads as nat,
                    seq_len as nat,
                    self.head_v_dim as nat,
                ]);
            }
            let lines = ops::reshape(out, dims)?;
            let t = ops::transpose(&lines, 1, 2)?;
            let solid = ops::contiguous(&t)?;
            let y = ops::to_dtype(&solid, dtype)?;
            Ok((y, new_state))
        }
    }
}

/// The line of a head holds that head's numbers, token by token.
pub proof fn law_flat_heads(x: TensorView, lines: nat, b: int, t: int, h: int, d: int)
    requires
        x.fits(),
        x.dims.len() == 4,
        lines == x.dims[0] * x.dims[2],
        0 <= b < x.dims[0],
        0 <= t < x.dims[1],
        0 <= h < x.dims[2],
        0 <= d < x.dims[3],
    ensures
        flattens(x, lines, x.dims[1], x.dims[3]),
        flat_heads(x, lines, x.dims[1], x.dims[3]).at3(b * x.dims[2] + h, t, d) == rounded_elem(
            x,
            Dtype::F32,
            x.at4(b, t, h, d),
        ),
{
    let s = x.dims[1];
    let n = x.dims[2];
    let dim = x.dims[3];
    let v = turned(x, s);
    let f = flat_heads(x, lines, s, dim);
    lemma_in_range4(x.dims, b, t, h, d);
    lemma_position_bounds(x.dims, seq![b, t, h, d]);
    lemma_product_within_extent(x.dims);
    lemma_at4(x, b, t, h, d);
    lemma_position3(lines, s, dim, 0, 0, 0);
    lemma_product_within_extent(seq![lines, s, dim]);
    lemma_at3(f, b * n + h, t, d);
    let b0 = x.dims[0];
    assert((b0 * n) * s * dim == b0 * s * n * dim) by (nonlinear_arith);
    if s == 1 {
        assert(t == 0);
        lemma_converted_at(x, Dtype::F32, seq![b, t, h, d]);
        lemma_at4(converted(x, Dtype::F32), b, t, h, d);
        assert((b * n + h) * s + t == (b * s + t) * n + h) by (nonlinear_arith)
            requires
                s == 1,
                t == 0,
        ;
    } else {
        lemma_transposed4(x, b, h, t, d);
        lemma_in_range4(v.dims, b, h, t, d);
        lemma_swap(b0, s, n, dim);
        assert(x.dims =~= seq![b0, s, n, dim]);
        lemma_converted_at(v, Dtype::F32, seq![b, h, t, d]);
        lemma_at4(converted(v, Dtype::F32), b, h, t, d);
    }
}

/// The line of a head holds that head's gates, token by token.
pub proof fn law_flat_gates(x: TensorView, lines: nat, b: int, t: int, h: int)
    requires
        x.fits(),
        x.dims.len() == 3,
        lines == x.dims[0] * x.dims[2],
        0 <= b < x.dims[0],
        0 <= t < x.dims[1],
        0 <= h < x.dims[2],
    ensures
        flattens_gates(x, lines, x.dims[1]),
        flat_gates(x, lines, x.dims[1]).at2(b * x.dims[2] + h, t) == rounded_elem(
            x,
            Dtype::F32,
            x.at3(b, t, h),
        ),
{
    let s = x.dims[1];
    let n = x.dims[2];
    let c = converted(x, Dtype::F32);
    let f = flat_gates(x, lines, s);
    lemma_in_range3(x.dims, b, t, h);
    lemma_position_bounds(x.dims, seq![b, t, h]);
    lemma_product_within_extent(x.dims);
    lemma_at3(x, b, t, h);
    lemma_at3(c, b, t, h);
    lemma_converted_at(x, Dtype::F32, seq![b, t, h]);
    lemma_position2(lines, s, 0, 0);
    lemma_product_within_extent(seq![lines, s]);
    lemma_at2(f, b * n + h, t);
    let b0 = x.dims[0];
    assert((b0 * n) * s == b0 * s * n) by (nonlinear_arith);
    if s == 1 {
        assert((b * n + h) * s + t == (b * s + t) * n + h) by (nonlinear_arith)
            requires
                s == 1,
                t == 0,
        ;
    } else {
        lemma_transposed3(c, b, h, t);
        let v = c.transposed(1, 2);
        lemma_at3(v, b, h, t);
        assert(b0 * n * s == (b0 * n) * s);
        lemma_position3(b0, n, s, 0, 0, 0);
    }
}

/// The lines of the output go back to the tokens and heads that they belong to.
pub proof fn law_unflat(
    layer: LinearAttention,
    out: TensorView,
    batch: usize,
    seq_len: usize,
    dtype: Dtype,
    b: int,
    t: int,
    h: int,
    d: int,
)
    requires
        out.fits(),
        out.dims == seq![
            layer.lines(batch),
            seq_len as nat,
            layer.head_v_dim as nat,
        ],
        0 <= b < batch,
        0 <= t < seq_len,
        0 <= h < layer.num_v_heads,
        0 <= d < layer.head_v_dim,
    ensures
        layer.unflat(out, batch, seq_len, dtype).dims == seq![
            batch as nat,
            seq_len as nat,
            layer.num_v_heads as nat,
            layer.head_v_dim as nat,
        ],
        layer.unflat(out, batch, seq_len, dtype).at4(b, t, h, d) == rounded_elem(
            out,
            dtype,
            out.at3(b * layer.num_v_heads + h, t, d),
        ),
{
    let n = layer.num_v_heads as nat;
    let s = seq_len as nat;
    let dim = layer.head_v_dim as nat;
    let b0 = batch as nat;
    lemma_at3(out, b * n + h, t, d);
    assert((b0 * n) * s * dim == b0 * n * s * dim) by (nonlinear_arith);
    assert((b0 * n) * s * dim == b0 * s * n * dim) by (nonlinear_arith);
    lemma_position4(b0, n, s, dim, b, h, t, d);
    lemma_position4(b0, s, n, dim, b, t, h, d);
    if seq_len == 1 {
        let r = out.reshaped(seq![b0, s, n, dim]);
        lemma_at4(r, b, t, h, d);
        lemma_in_range4(r.dims, b, t, h, d);
        lemma_converted_at(r, dtype, seq![b, t, h, d]);
        assert((b * n + h) * s + t == (b * s + t) * n + h) by (nonlinear_arith)
            requires
                s == 1,
                t == 0,
        ;
    } else {
        let r = out.reshaped(seq![b0, n, s, dim]);
        let v = r.transposed(1, 2);
        lemma_at4(r, b, h, t, d);
        lemma_transposed4(r, b, t, h, d);
        lemma_in_range4(v.dims, b, t, h, d);
        lemma_converted_at(v, dtype, seq![b, t, h, d]);
    }
}

/// What is laid out in lines and brought back stands where it stood.
pub proof fn law_flat_round_trip(
    layer: LinearAttention,
    x: TensorView,
    batch: usize,
    seq_len: usize,
    b: int,
    t: int,
    h: int,
    d: int,
)
    requires
        x.fits(),
        x.dims == seq![
            batch as nat,
            seq_len as nat,
            layer.num_v_heads as nat,
            layer.head_v_dim as nat,
        ],
        0 <= b < batch,
        0 <= t < seq_len,
        0 <= h < layer.num_v_heads,
        0 <= d < layer.head_v_dim,
    ensures
        layer.unflat(
            flat_heads(x, layer.lines(batch), seq_len as nat, layer.head_v_dim as nat),
            batch,
            seq_len,
            Dtype::F32,
        ).at4(b, t, h, d) == rounded_elem(x, Dtype::F32, x.at4(b, t, h, d)),
{
    let lines = layer.lines(batch);
    let f = flat_heads(x, lines, seq_len as nat, layer.head_v_dim as nat);
    law_flat_heads(x, lines, b, t, h, d);
    law_unflat(layer, f, batch, seq_len, Dtype::F32, b, t, h, d);
}

/// A state that comes back from lines has the shape of the layer's states.
pub proof fn law_state_shape(layer: LinearAttention, state: TensorView, batch: usize, dtype: Dtype)
    ensures
        layer.unflat_state(state, batch, dtype).dims == seq![
            batch as nat,
            layer.num_v_heads as nat,
            layer.head_k_dim as nat,
            layer.head_v_dim as nat,
        ],
{
}

/// A state in single precision that is laid out in lines and brought back is the same.
pub proof fn law_state_round_trip(layer: LinearAttention, state: TensorView, batch: usize)
    requires
        state.fits(),
        state.dtype == Dtype::F32,
        state.dims == seq![
            batch as nat,
            layer.num_v_heads as nat,
            layer.head_k_dim as nat,
            layer.head_v_dim as nat,
        ],
    ensures
        layer.unflat_state(
            converted(state, Dtype::F32).reshaped(
                seq![layer.lines(batch), layer.head_k_dim as nat, layer.head_v_dim as nat],
            ),
            batch,
            Dtype::F32,
        ) == state,
{
}

/// Where the numbers of the recurrence's inputs go: head `h` of sequence `b` has line `b * heads + h`, token
/// by token; queries are scaled, everything is in single precision, and from 64 tokens on the recurrence is
/// computed in chunks.
pub proof fn law_lines(
    layer: LinearAttention,
    q: Tensor,
    k: Tensor,
    v: Tensor,
    g: Tensor,
    beta: Tensor,
    state: Tensor,
    batch: usize,
    seq_len: usize,
    scale: Scalar,
    r: Result<FlatRecurrence, ModelError>,
    b: int,
    t: int,
    h: int,
    i: int,
    j: int,
)
    requires
        tensor_view(q).fits(),
        tensor_view(k).fits(),
        tensor_view(v).fits(),
        tensor_view(g).fits(),
        tensor_view(beta).fits(),
        tensor_view(state).fits(),
        ({
            let (n, s) = (layer.num_v_heads as nat, seq_len as nat);
            let (dk, dv) = (layer.head_k_dim as nat, layer.head_v_dim as nat);
            &&& tensor_view(q).dims == seq![batch as nat, s, n, dk]
            &&& tensor_view(k).dims == seq![batch as nat, s, n, dk]
            &&& tensor_view(v).dims == seq![batch as nat, s, n, dv]
            &&& tensor_view(g).dims == seq![batch as nat, s, n]
            &&& tensor_view(beta).dims == seq![batch as nat, s, n]
            &&& tensor_view(state).dims == seq![batch as nat, n, dk, dv]
        }),
        call_ensures(
            LinearAttention::recurrence_inputs,
            (&layer, &q, &k, &v, &g, &beta, &state, batch, seq_len, &scale),
            r,
        ),
        0 <= b < batch,
        0 <= t < seq_len,
        0 <= h < layer.num_v_heads,
        0 <= i < layer.head_k_dim,
        0 <= j < layer.head_v_dim,
    ensures
        call_requires(
            LinearAttention::recurrence_inputs,
            (&layer, &q, &k, &v, &g, &beta, &state, batch, seq_len, &scale),
        ),
        tensor_view(q).dtype.floating() && tensor_view(k).dtype.floating() && tensor_view(
            v,
        ).dtype.floating() && tensor_view(g).dtype.floating() && tensor_view(beta).dtype.floating()
            && tensor_view(state).dtype.floating() ==> r is Ok,
        r is Ok ==> {
            let f = r->Ok_0;
            let single = Dtype::F32;
            let (n, s) = (layer.num_v_heads as nat, seq_len as nat);
            let (dk, dv) = (layer.head_k_dim as nat, layer.head_v_dim as nat);
            let lines = batch as nat * n;
            let line = b * n + h;
            let (qv, kv, vv) = (tensor_view(q), tensor_view(k), tensor_view(v));
            let (gv, bv, sv) = (tensor_view(g), tensor_view(beta), tensor_view(state));
            &&& tensor_view(f.q).dims == seq![lines, s, dk]
            &&& tensor_view(f.k).dims == seq![lines, s, dk]
            &&& tensor_view(f.v).dims == seq![lines, s, dv]
            &&& tensor_view(f.g).dims == seq![lines, s]
            &&& tensor_view(f.beta).dims == seq![lines, s]
            &&& tensor_view(f.state).dims == seq![lines, dk, dv]
            &&& tensor_view(f.q).dtype == single && tensor_view(f.k).dtype == single
                && tensor_view(f.v).dtype == single && tensor_view(f.g).dtype == single
                && tensor_view(f.beta).dtype == single && tensor_view(f.state).dtype == single
            &&& tensor_view(f.q).at3(line, t, i) == scaled(
                qv.device,
                single,
                rounded_elem(qv, single, qv.at4(b, t, h, i)),
                scale,
            )
            &&& tensor_view(f.k).at3(line, t, i) == rounded_elem(kv, single, kv.at4(b, t, h, i))
            &&& tensor_view(f.v).at3(line, t, j) == rounded_elem(vv, single, vv.at4(b, t, h, j))
            &&& tensor_view(f.g).at2(line, t) == rounded_elem(gv, single, gv.at3(b, t, h))
            &&& tensor_view(f.beta).at2(line, t) == rounded_elem(bv, single, bv.at3(b, t, h))
            &&& tensor_view(f.state).at3(line, i, j) == rounded_elem(sv, single, sv.at4(b, h, i, j))
            &&& f.chunked == (seq_len >= 64)
        },
{
    let single = Dtype::F32;
    let (n, s) = (layer.num_v_heads as nat, seq_len as nat);
    let (dk, dv) = (layer.head_k_dim as nat, layer.head_v_dim as nat);
    let lines = batch as nat * n;
    let (qv, kv, vv) = (tensor_view(q), tensor_view(k), tensor_view(v));
    let (gv, bv, sv) = (tensor_view(g), tensor_view(beta), tensor_view(state));
    assert(lines == layer.lines(batch));
    law_flat_heads(qv, lines, b, t, h, i);
    law_flat_heads(kv, lines, b, t, h, i);
    law_flat_heads(vv, lines, b, t, h, j);
    law_flat_gates(gv, lines, b, t, h);
    law_flat_gates(bv, lines, b, t, h);
    lemma_position4(batch as nat, n, dk, dv, b, h, i, j);
    lemma_position3(lines, dk, dv, b * n + h, i, j);
    assert(batch as nat * n * dk * dv == lines * dk * dv);
    lemma_in_range4(sv.dims, b, h, i, j);
    lemma_position_bounds(sv.dims, seq![b, h, i, j]);
    lemma_product_within_extent(sv.dims);
    lemma_product_within_extent(seq![lines, dk, dv]);
    lemma_at4(sv, b, h, i, j);
    let cast = converted(sv, single);
    lemma_converted_at(sv, single, seq![b, h, i, j]);
    lemma_at4(cast, b, h, i, j);
    lemma_at3(cast.reshaped(seq![lines, dk, dv]), b * n + h, i, j);
    lemma_in_range3(gv.dims, b, t, h);
    lemma_position_bounds(gv.dims, seq![b, t, h]);
    assert(batch * layer.num_v_heads <= usize::MAX) by {
        assert(lines * dk * dv == lines * (dk * dv)) by (nonlinear_arith);
        assert(lines <= lines * (dk * dv)) by (nonlinear_arith)
            requires
                dk > 0,
                dv > 0,
                lines >= 0,
        ;
    }
    if r is Ok {
        let flat = flat_heads(qv, lines, s, dk);
        let line = b * n + h;
        assert(0 <= line < lines) by (nonlinear_arith)
            requires
                line == b * n + h,
                lines == batch as nat * n,
                0 <= b < batch,
                0 <= h < n,
        ;
        lemma_in_range3(flat.dims, line, t, i);
        lemma_mapped_at(flat, |a: int| scaled(flat.device, flat.dtype, a, scale), seq![line, t, i]);
    }
}

/// Where the numbers of the recurrence's results go: back from line `b * heads + h` to head `h` of sequence
/// `b`, in the types asked for.
pub proof fn law_lines_back(
    layer: LinearAttention,
    out: Tensor,
    state: Tensor,
    batch: usize,
    seq_len: usize,
    dtype: Dtype,
    state_dtype: Dtype,
    r: Result<(Tensor, Tensor), ModelError>,
    b: int,
    t: int,
    h: int,
    i: int,
    j: int,
)
    requires
        tensor_view(out).fits(),
        tensor_view(state).fits(),
        tensor_view(out).dims == seq![
            batch as nat * layer.num_v_heads as nat,
            seq_len as nat,
            layer.head_v_dim as nat,
        ],
        tensor_view(state).dims == seq![
            batch as nat * layer.num_v_heads as nat,
            layer.head_k_dim as nat,
            layer.head_v_dim as nat,
        ],
        call_ensures(
            LinearAttention::recurrence_outputs,
            (&layer, &out, &state, batch, seq_len, dtype, state_dtype),
            r,
        ),
        0 <= b < batch,
        0 <= t < seq_len,
        0 <= h < layer.num_v_heads,
        0 <= i < layer.head_k_dim,
        0 <= j < layer.head_v_dim,
    ensures
        call_requires(
            LinearAttention::recurrence_outputs,
            (&layer, &out, &state, batch, seq_len, dtype, state_dtype),
        ),
        tensor_view(out).dtype.floating() && tensor_view(state).dtype.floating() && dtype.floating()
            && state_dtype.floating() ==> r is Ok,
        r is Ok ==> {
            let n = layer.num_v_heads as nat;
            let (dk, dv) = (layer.head_k_dim as nat, layer.head_v_dim as nat);
            let (ov, sv) = (tensor_view(out), tensor_view(state));
            let (y, s) = (tensor_view(r->Ok_0.0), tensor_view(r->Ok_0.1));
            let line = b * n + h;
            &&& y.dims == seq![batch as nat, seq_len as nat, n, dv]
            &&& y.dtype == dtype
            &&& y.at4(b, t, h, j) == rounded_elem(ov, dtype, ov.at3(line, t, j))
            &&& s.dims == seq![batch as nat, n, dk, dv]
            &&& s.dtype == state_dtype
            &&& s.at4(b, h, i, j) == rounded_elem(sv, state_dtype, sv.at3(line, i, j))
        },
{
    let (n, s) = (layer.num_v_heads as nat, seq_len as nat);
    let (dk, dv) = (layer.head_k_dim as nat, layer.head_v_dim as nat);
    let b0 = batch as nat;
    let (ov, sv) = (tensor_view(out), tensor_view(state));
    let line = b * n + h;
    assert(layer.lines(batch) == b0 * n);
    law_unflat(layer, ov, batch, seq_len, dtype, b, t, h, j);
    assert(0 <= line < b0 * n) by (nonlinear_arith)
        requires
            line == b * n + h,
            0 <= b < b0,
            0 <= h < n,
    ;
    lemma_position3(b0 * n, dk, dv, line, i, j);
    lemma_position3(b0 * n, s, dv, line, t, j);
    lemma_position4(b0, n, dk, dv, b, h, i, j);
    lemma_position4(b0, n, s, dv, b, h, t, j);
    lemma_in_range3(sv.dims, line, i, j);
    lemma_in_range3(ov.dims, line, t, j);
    lemma_position_bounds(sv.dims, seq![line, i, j]);
    lemma_position_bounds(ov.dims, seq![line, t, j]);
    lemma_product_within_extent(sv.dims);
    lemma_product_within_extent(ov.dims);
    let shaped = sv.reshaped(seq![b0, n, dk, dv]);
    lemma_product_within_extent(shaped.dims);
    lemma_product_within_extent(seq![b0, n, s, dv]);
    lemma_at3(sv, line, i, j);
    lemma_at4(shaped, b, h, i, j);
    lemma_in_range4(shaped.dims, b, h, i, j);
    lemma_converted_at(shaped, state_dtype, seq![b, h, i, j]);
}

} // verus!
