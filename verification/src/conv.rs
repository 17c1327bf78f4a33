//! The causal convolution in front of the gated delta net, over a whole sequence or token by token.
use vstd::prelude::*;
use candle_core::Tensor;
use crate::candle;
use crate::candle::{converted, row_sum, silu_of, tensor_view, times, zeros_like};
use crate::coords::{
    lemma_at2, lemma_at3, lemma_converted_at, lemma_in_range2, lemma_in_range3, lemma_joined3,
    lemma_mapped_at, lemma_narrowed3, lemma_stacked3, lemma_transposed3, lemma_zipped_at, rounded_elem,
};
use crate::error::ModelError;
use crate::linear_attention::{GdnLayerCache, LinearAttention};
use crate::ops;
use crate::ops::owned_views;
use crate::shape::{
    extent, lemma_extent_bounds, lemma_extent_shorter, lemma_position2, lemma_position_bounds, shape,
    MAX_ELEMENTS,
};
use crate::view::{
    aligned, broadcast_dims, broadcast_source, broadcastable, lemma_filled_at, Dtype, TensorView,
};

verus! {

/// One value of the convolution: the SiLU of the sum of the products of a window of inputs with
/// the weights of channel `c`.
pub open spec fn conv_value(
    device: int,
    dtype: Dtype,
    weight: TensorView,
    c: int,
    window: Seq<int>,
) -> int {
    silu_of(
        device,
        dtype,
        row_sum(
            device,
            dtype,
            Seq::new(window.len(), |j: int| times(device, dtype, window[j], weight.at2(c, j))),
        ),
    )
}

/// The input of channel `c` of sequence `b` at time `n`, for sequences that start at time 0: zero
/// before.
pub open spec fn fresh_input(x: TensorView, dtype: Dtype, b: int, c: int, n: int) -> int {
    if n < 0 {
        0
    } else {
        rounded_elem(x, dtype, x.at3(b, n, c))
    }
}

/// The input of channel `c` of sequence `b` at time `n`, for sequences that go on from `state`,
/// which holds the inputs before time 0.
pub open spec fn carried_input(state: TensorView, x: TensorView, b: int, c: int, n: int) -> int {
    if n < 0 {
        state.at3(b, c, state.dims[2] + n)
    } else {
        rounded_elem(x, state.dtype, x.at3(b, n, c))
    }
}

/// The `k` inputs up to and with time `t`.
pub open spec fn window(input: spec_fn(int) -> int, k: nat, t: int) -> Seq<int> {
    Seq::new(k, |j: int| input(t - k + 1 + j))
}

/// `o` is the convolution at times `0 .. len` of the inputs of each sequence, given by sequence,
/// channel and time.
pub open spec fn is_convolution(
    o: TensorView,
    device: int,
    dtype: Dtype,
    weight: TensorView,
    k: nat,
    batch: nat,
    channels: nat,
    len: nat,
    input: spec_fn(int, int, int) -> int,
) -> bool {
    &&& o.dims == seq![batch, len, channels]
    &&& o.dtype == dtype
    &&& o.device == device
    &&& forall|b: int, t: int, c: int|
        0 <= b < batch && 0 <= t < len && 0 <= c < channels ==> #[trigger] o.at3(b, t, c)
            == conv_value(
            device,
            dtype,
            converted(weight, dtype),
            c,
            window(|n: int| input(b, c, n), k, t),
        )
}

/// `state` holds the last `width` inputs of each sequence before time `len`.
pub open spec fn is_history(
    state: TensorView,
    device: int,
    dtype: Dtype,
    width: nat,
    batch: nat,
    channels: nat,
    len: nat,
    input: spec_fn(int, int, int) -> int,
) -> bool {
    &&& state.dims == seq![batch, channels, width]
    &&& state.dtype == dtype
    &&& state.device == device
    &&& forall|b: int, c: int, j: int|
        0 <= b < batch && 0 <= c < channels && 0 <= j < width ==> #[trigger] state.at3(b, c, j)
            == input(b, c, len - width + j)
}

/// One column of the convolution before the activation: `[batch, channels]`.
fn column(hidden: &Tensor, weight: &Tensor, start: usize, k: usize) -> (r: Result<
    Tensor,
    ModelError,
>)
    requires
        tensor_view(*hidden).fits(),
        tensor_view(*weight).fits(),
        tensor_view(*hidden).dims.len() == 3,
        start + k <= tensor_view(*hidden).dims[2],
        k >= 1,
        tensor_view(*weight).dims == seq![tensor_view(*hidden).dims[1], k as nat],
        tensor_view(*weight).dtype == tensor_view(*hidden).dtype,
    ensures
        match r {
            Ok(o) => column_of(
                tensor_view(o),
                tensor_view(*hidden),
                tensor_view(*weight),
                start as int,
                k as nat,
            ) && tensor_view(o).fits(),
            Err(_) => !tensor_view(*hidden).dtype.floating(),
        },
{
    let ghost h = tensor_view(*hidden);
    let ghost w = tensor_view(*weight);
    let taken = ops::narrow(hidden, 2, start, k)?;
    let lifted = ops::unsqueeze(weight, 0)?;
    let ghost n = tensor_view(taken);
    let ghost u = tensor_view(lifted);
    proof {
        assert(n.dims =~= seq![h.dims[0], h.dims[1], k as nat]);
        assert(u.dims =~= seq![1, h.dims[1], k as nat]);
        lemma_broadcast_first(h.dims[0], h.dims[1], k as nat);
    }
    let prod = ops::broadcast_mul(&taken, &lifted)?;
    let ghost p = tensor_view(prod);
    let sum = ops::sum_last(&prod)?;
    proof {
        let s = tensor_view(sum);
        let f = |x: int, y: int| times(n.device, n.dtype, x, y);
        let cs = h.dims[1];
        assert(p.dims == n.dims);
        assert(s.dims =~= seq![h.dims[0], cs]);
        assert forall|b: int, c: int| 0 <= b < h.dims[0] && 0 <= c < cs implies #[trigger] s.at2(b, c)
            == row_sum(
            h.device,
            h.dtype,
            Seq::new(
                k as nat,
                |j: int| times(h.device, h.dtype, h.at3(b, c, start + j), w.at2(c, j)),
            ),
        ) by {
            lemma_at2(s, b, c);
            lemma_in_range2(s.dims, b, c);
            lemma_position_bounds(s.dims, seq![b, c]);
            lemma_position2(s.dims[0], s.dims[1], b, c);
            let line = b * cs + c;
            let row = Seq::new(
                k as nat,
                |j: int| times(h.device, h.dtype, h.at3(b, c, start + j), w.at2(c, j)),
            );
            assert(p.row(line) =~= row) by {
                assert forall|j: int| 0 <= j < k implies p.row(line)[j] == row[j] by {
                    let at = seq![b, c, j];
                    lemma_in_range3(p.dims, b, c, j);
                    lemma_at3(p, b, c, j);
                    lemma_narrowed3(h, start as int, k as nat, b, c, j);
                    lemma_at3(u, 0, c, j);
                    lemma_at2(w, c, j);
                    assert(0 * u.dims[1] + c == c) by (nonlinear_arith);
                    lemma_zipped_at(n, u, f, at);
                    assert(broadcast_source(n.dims, at) =~= at);
                    assert(broadcast_source(u.dims, at) =~= seq![0, c, j]);
                }
            }
        }
    }
    Ok(sum)
}

/// One matrix is broadcast to all sequences.
proof fn lemma_broadcast_first(a: nat, b: nat, c: nat)
    ensures
        broadcastable(seq![a, b, c], seq![1, b, c]),
        broadcast_dims(seq![a, b, c], seq![1, b, c]) == seq![a, b, c],
{
    let x = seq![a, b, c];
    let y = seq![1, b, c];
    assert forall|i: int| 0 <= i < 3 implies #[trigger] aligned(x, 3, i) == x[i] && aligned(y, 3, i)
        == y[i] by {}
    assert(broadcast_dims(x, y) =~= x);
}

/// `o` holds, for each sequence and channel, the sum of the products of the window at `start` with the
/// weight.
spec fn column_of(o: TensorView, h: TensorView, w: TensorView, start: int, k: nat) -> bool {
    &&& o.dims == seq![h.dims[0], h.dims[1]]
    &&& o.dtype == h.dtype
    &&& o.device == h.device
    &&& forall|b: int, c: int|
        0 <= b < h.dims[0] && 0 <= c < h.dims[1] ==> #[trigger] o.at2(b, c) == row_sum(
            h.device,
            h.dtype,
            Seq::new(k, |j: int| times(h.device, h.dtype, h.at3(b, c, start + j), w.at2(c, j))),
        )
}

/// Whether a tensor has the shape `[rows, columns]`.
fn is_matrix(x: &Tensor, rows: usize, columns: usize) -> (r: bool)
    ensures
        r == (tensor_view(*x).dims == seq![rows as nat, columns as nat]),
{
    let d = candle::dims(x);
    let r = d.len() == 2 && d[0] == rows && d[1] == columns;
    proof {
        let v = tensor_view(*x).dims;
        assert(forall|i: int| 0 <= i < d.len() ==> v[i] == #[trigger] d[i] as nat);
        if r {
            assert(v =~= seq![rows as nat, columns as nat]);
        } else if v == seq![rows as nat, columns as nat] {
            assert(d.len() == 2 && d[0] == rows && d[1] == columns);
        }
    }
    r
}

/// The columns that start at `first .. first + len`, stacked, activated and turned so that time
/// comes before the channel.
fn columns(hidden: &Tensor, weight: &Tensor, first: usize, k: usize, len: usize) -> (r: Result<
    Tensor,
    ModelError,
>)
    requires
        tensor_view(*hidden).fits(),
        tensor_view(*weight).fits(),
        tensor_view(*hidden).dims.len() == 3,
        k >= 1,
        first + len + k <= tensor_view(*hidden).dims[2] + 1,
        tensor_view(*weight).dtype == tensor_view(*hidden).dtype,
    ensures
        match r {
            Ok(o) => {
                let h = tensor_view(*hidden);
                let w = tensor_view(*weight);
                &&& len >= 1
                &&& w.dims == seq![h.dims[1], k as nat]
                &&& tensor_view(o).fits()
                &&& tensor_view(o).dims == seq![h.dims[0], len as nat, h.dims[1]]
                &&& tensor_view(o).dtype == h.dtype
                &&& tensor_view(o).device == h.device
                &&& forall|b: int, t: int, c: int|
                    0 <= b < h.dims[0] && 0 <= t < len && 0 <= c < h.dims[1]
                        ==> #[trigger] tensor_view(o).at3(b, t, c) == conv_value(
                        h.device,
                        h.dtype,
                        w,
                        c,
                        Seq::new(k as nat, |j: int| h.at3(b, c, first + t + j)),
                    )
            },
            Err(_) => !(len >= 1 && tensor_view(*weight).dims == seq![
                tensor_view(*hidden).dims[1],
                k as nat,
            ] && tensor_view(*hidden).dtype.floating()),
        },
{
    let ghost h = tensor_view(*hidden);
    let ghost w = tensor_view(*weight);
    let d = candle::dims(hidden);
    proof {
        assert(h.dims =~= seq![d[0] as nat, d[1] as nat, d[2] as nat]);
    }
    if !is_matrix(weight, d[1], k) {
        return Err(ModelError::Shapes);
    }
    let mut outs: Vec<Tensor> = Vec::new();
    let mut i: usize = 0;
    proof {
        lemma_extent_bounds(h.dims, 2);
    }
    while i < len
        invariant
            i <= len,
            outs.len() == i,
            h == tensor_view(*hidden),
            w == tensor_view(*weight),
            h.fits(),
            w.fits(),
            h.dims.len() == 3,
            k >= 1,
            first + len + k <= h.dims[2] + 1,
            w.dtype == h.dtype,
            w.dims == seq![h.dims[1], k as nat],
            forall|t: int|
                0 <= t < i ==> column_of(
                    tensor_view(#[trigger] outs@[t]),
                    h,
                    w,
                    first + t,
                    k as nat,
                ) && tensor_view(outs@[t]).fits(),
            h.dims[2] <= usize::MAX,
        decreases len - i,
    {
        let start: usize = first + i;
        let o = column(hidden, weight, start, k)?;
        outs.push(o);
        i = i + 1;
    }
    let ghost vs = owned_views(outs@);
    let ghost bs = h.dims[0];
    let ghost cs = h.dims[1];
    proof {
        assert(vs.len() == len);
        assert forall|t: int| 0 <= t < len implies #[trigger] vs[t] == tensor_view(outs@[t]) by {}
        if len >= 1 {
            assert(column_of(tensor_view(outs@[0]), h, w, first + 0, k as nat));
            assert(vs[0].dims.insert(2, len as nat) =~= seq![bs, cs, len as nat]);
            assert(h.dims =~= seq![bs, cs, h.dims[2]]);
            lemma_extent_shorter(bs, cs, len as nat, h.dims[2]);
        }
    }
    let all = ops::stack(&outs, 2)?;
    let act = ops::silu(&all)?;
    let turned = ops::transpose(&act, 1, 2)?;
    proof {
        let sv = tensor_view(all);
        let av = tensor_view(act);
        let tv = tensor_view(turned);
        assert(column_of(vs[0], h, w, first + 0, k as nat));
        assert(sv.dims =~= seq![bs, cs, len as nat]);
        assert(tv.dims =~= seq![bs, len as nat, cs]);
        assert forall|b: int, t: int, c: int|
            0 <= b < bs && 0 <= t < len && 0 <= c < cs implies #[trigger] tv.at3(b, t, c)
            == conv_value(
            h.device,
            h.dtype,
            w,
            c,
            Seq::new(k as nat, |j: int| h.at3(b, c, first + t + j)),
        ) by {
            let win = Seq::new(k as nat, |j: int| h.at3(b, c, first + t + j));
            lemma_transposed3(av, b, t, c);
            lemma_in_range3(sv.dims, b, c, t);
            lemma_mapped_at(sv, |a: int| silu_of(sv.device, sv.dtype, a), seq![b, c, t]);
            lemma_stacked3(vs, b, c, t);
            assert(column_of(tensor_view(outs@[t]), h, w, first + t, k as nat));
            assert(vs[t].at2(b, c) == row_sum(
                h.device,
                h.dtype,
                Seq::new(
                    k as nat,
                    |j: int| times(h.device, h.dtype, h.at3(b, c, (first + t) + j), w.at2(c, j)),
                ),
            ));
            assert(Seq::new(
                k as nat,
                |j: int| times(h.device, h.dtype, h.at3(b, c, (first + t) + j), w.at2(c, j)),
            ) =~= Seq::new(
                win.len(),
                |j: int| times(h.device, h.dtype, win[j], w.at2(c, j)),
            ));
        }
    }
    Ok(turned)
}

/// The input with channels before time, in type `to`.
fn turned_input(x: &Tensor, to: Dtype) -> (r: Result<Tensor, ModelError>)
    requires
        tensor_view(*x).fits(),
        tensor_view(*x).dims.len() == 3,
    ensures
        match r {
            Ok(o) => {
                let v = tensor_view(*x);
                &&& tensor_view(o).fits()
                &&& tensor_view(o).dims == seq![v.dims[0], v.dims[2], v.dims[1]]
                &&& tensor_view(o).dtype == to
                &&& tensor_view(o).device == v.device
                &&& forall|b: int, c: int, n: int|
                    0 <= b < v.dims[0] && 0 <= c < v.dims[2] && 0 <= n < v.dims[1]
                        ==> #[trigger] tensor_view(o).at3(b, c, n) == rounded_elem(
                        v,
                        to,
                        v.at3(b, n, c),
                    )
            },
            Err(_) => !(tensor_view(*x).dtype.floating() && to.floating()),
        },
{
    let ghost v = tensor_view(*x);
    let t = ops::transpose(x, 1, 2)?;
    let packed = ops::contiguous(&t)?;
    let o = ops::to_dtype(&packed, to)?;
    proof {
        let tv = v.transposed(1, 2);
        assert(tv.dims =~= seq![v.dims[0], v.dims[2], v.dims[1]]);
        assert forall|b: int, c: int, n: int|
            0 <= b < v.dims[0] && 0 <= c < v.dims[2] && 0 <= n < v.dims[1] implies #[trigger] tensor_view(
            o,
        ).at3(b, c, n) == rounded_elem(v, to, v.at3(b, n, c)) by {
            lemma_in_range3(tv.dims, b, c, n);
            lemma_converted_at(tv, to, seq![b, c, n]);
            lemma_transposed3(v, b, c, n);
        }
    }
    Ok(o)
}

/// The sequences on which the convolution works: not empty, with the channels and the width of the
/// weight, of floating-point numbers, and short enough to be padded.
pub open spec fn convolvable(
    x: TensorView,
    weight: TensorView,
    k: nat,
    width: nat,
    dtype: Dtype,
) -> bool {
    &&& x.dims.len() == 3
    &&& x.dims[1] >= 1
    &&& weight.dims == seq![x.dims[2], k]
    &&& x.dtype.floating()
    &&& weight.dtype.floating()
    &&& dtype.floating()
    &&& extent(seq![x.dims[0], x.dims[2], width + x.dims[1]]) <= MAX_ELEMENTS
}

impl LinearAttention {
    /// The causal convolution of sequences from their start: the output at each time is computed from
    /// the inputs of the last `conv_kernel_size` times of the same sequence, with zeros before the
    /// first. The cache takes the last inputs.
    pub fn causal_conv1d_full(&self, x: &Tensor, cache: &mut GdnLayerCache) -> (r: Result<
        Tensor,
        ModelError,
    >)
        requires
            self.conv_kernel_size >= 1,
            tensor_view(*x).fits(),
            tensor_view(self.conv1d_weight).fits(),
        ensures
            final(cache).recurrent_state == old(cache).recurrent_state,
            final(cache).seqlen_offset == old(cache).seqlen_offset,
            ({
                let v = tensor_view(*x);
                let w = tensor_view(self.conv1d_weight);
                let k = self.conv_kernel_size as nat;
                let dtype = tensor_view(old(cache).conv_state).dtype;
                let input = |b: int, c: int, n: int| fresh_input(v, dtype, b, c, n);
                let kept = v.dims.len() == 3 && is_history(
                    tensor_view(final(cache).conv_state),
                    v.device,
                    dtype,
                    k,
                    v.dims[0],
                    v.dims[2],
                    v.dims[1],
                    input,
                ) && tensor_view(final(cache).conv_state).fits();
                match r {
                    Ok(o) => {
                        &&& v.dims.len() == 3
                        &&& v.dims[1] >= 1
                        &&& w.dims == seq![v.dims[2], k]
                        &&& is_convolution(
                            tensor_view(o),
                            v.device,
                            dtype,
                            w,
                            k,
                            v.dims[0],
                            v.dims[2],
                            v.dims[1],
                            input,
                        )
                        &&& tensor_view(o).fits()
                        &&& kept
                    },
                    Err(_) => {
                        &&& !convolvable(v, w, k, (k - 1) as nat, dtype)
                        &&& kept || final(cache).conv_state == old(cache).conv_state
                    },
                }
            }),
    {
        let ghost v = tensor_view(*x);
        let ghost w = tensor_view(self.conv1d_weight);
        let k: usize = self.conv_kernel_size;
        let ghost ready = convolvable(
            v,
            w,
            k as nat,
            (k - 1) as nat,
            tensor_view(cache.conv_state).dtype,
        );
        let d = candle::dims(x);
        if d.len() != 3 {
            return Err(ModelError::Rank);
        }
        let batch: usize = d[0];
        let seq_len: usize = d[1];
        let conv_dim: usize = d[2];
        proof {
            assert(v.dims =~= seq![batch as nat, seq_len as nat, conv_dim as nat]);
            if ready {
                let whole = (k - 1 + seq_len) as nat;
                lemma_extent_shorter(batch as nat, conv_dim as nat, k as nat, whole);
                lemma_extent_shorter(batch as nat, conv_dim as nat, (k - 1) as nat, whole);
                lemma_extent_bounds(seq![batch as nat, conv_dim as nat, whole], 2);
            }
        }
        let dt = candle::dtype(&cache.conv_state);
        let x_t = turned_input(x, dt)?;
        let ghost xv = tensor_view(x_t);
        let pad_width: usize = if k > seq_len {
            k - seq_len
        } else {
            0
        };
        let state = if pad_width > 0 {
            let blank = vec![batch, conv_dim, pad_width];
            proof {
                assert(shape(blank@) =~= seq![batch as nat, conv_dim as nat, pad_width as nat]);
                if ready {
                    lemma_extent_shorter(
                        batch as nat,
                        conv_dim as nat,
                        pad_width as nat,
                        k as nat,
                    );
                }
            }
            let zeros = ops::zeros(blank, &x_t)?;
            let ghost zv = tensor_view(zeros);
            proof {
                assert(zv.dims == seq![batch as nat, conv_dim as nat, pad_width as nat]);
                assert(zv.dims.update(2, 0) =~= xv.dims.update(2, 0));
                assert(zv.joined(xv, 2).dims =~= seq![batch as nat, conv_dim as nat, k as nat]);
            }
            let o = ops::join(&zeros, &x_t, 2)?;
            proof {
                assert forall|b: int, c: int, j: int|
                    0 <= b < batch && 0 <= c < conv_dim && 0 <= j < k implies #[trigger] tensor_view(
                    o,
                ).at3(b, c, j) == fresh_input(v, dt, b, c, seq_len - k + j) by {
                    lemma_joined3(zv, xv, b, c, j);
                    if j < pad_width {
                        lemma_zeros3(xv, zv.dims, b, c, j);
                    }
                }
            }
            o
        } else {
            let o = ops::narrow(&x_t, 2, seq_len - k, k)?;
            proof {
                assert(tensor_view(o).dims =~= seq![batch as nat, conv_dim as nat, k as nat]);
                assert forall|b: int, c: int, j: int|
                    0 <= b < batch && 0 <= c < conv_dim && 0 <= j < k implies #[trigger] tensor_view(
                    o,
                ).at3(b, c, j) == fresh_input(v, dt, b, c, seq_len - k + j) by {
                    lemma_narrowed3(xv, seq_len - k, k as nat, b, c, j);
                }
            }
            o
        };
        cache.conv_state = state;
        let front = vec![batch, conv_dim, k - 1];
        proof {
            assert(shape(front@) =~= seq![batch as nat, conv_dim as nat, (k - 1) as nat]);
        }
        let zeros = ops::zeros(front, &x_t)?;
        let ghost zv = tensor_view(zeros);
        proof {
            assert(zv.dims.update(2, 0) =~= xv.dims.update(2, 0));
            assert(zv.joined(xv, 2).dims =~= seq![
                batch as nat,
                conv_dim as nat,
                (k - 1 + seq_len) as nat,
            ]);
        }
        let padded = ops::join(&zeros, &x_t, 2)?;
        let weight = ops::to_dtype(&self.conv1d_weight, candle::dtype(&padded))?;
        let o = columns(&padded, &weight, 0, k, seq_len)?;
        proof {
            let h = tensor_view(padded);
            let input = |b: int, c: int, n: int| fresh_input(v, dt, b, c, n);
            assert forall|b: int, t: int, c: int|
                0 <= b < batch && 0 <= t < seq_len && 0 <= c < conv_dim implies #[trigger] tensor_view(
                o,
            ).at3(b, t, c) == conv_value(
                v.device,
                dt,
                converted(w, dt),
                c,
                window(|n: int| input(b, c, n), k as nat, t),
            ) by {
                let win = Seq::new(k as nat, |j: int| h.at3(b, c, 0 + t + j));
                assert(win =~= window(|n: int| input(b, c, n), k as nat, t)) by {
                    assert forall|j: int| 0 <= j < k implies win[j] == input(b, c, t - k + 1 + j) by {
                        lemma_joined3(zv, xv, b, c, t + j);
                        if t + j < k - 1 {
                            lemma_zeros3(xv, zv.dims, b, c, t + j);
                        }
                    }
                }
            }
        }
        Ok(o)
    }

    /// The causal convolution of sequences that go on: the output at each time is computed from the
    /// inputs of the last `conv_kernel_size` times of the same sequence, those before the first taken
    /// from the cache, which then takes the last inputs.
    pub fn causal_conv1d_update(&self, x: &Tensor, cache: &mut GdnLayerCache) -> (r: Result<
        Tensor,
        ModelError,
    >)
        requires
            self.conv_kernel_size >= 1,
            tensor_view(*x).fits(),
            tensor_view(self.conv1d_weight).fits(),
            tensor_view(old(cache).conv_state).fits(),
            tensor_view(old(cache).conv_state).dims.len() >= 3 ==> tensor_view(
                old(cache).conv_state,
            ).dims[2] + 1 >= self.conv_kernel_size,
        ensures
            final(cache).recurrent_state == old(cache).recurrent_state,
            final(cache).seqlen_offset == old(cache).seqlen_offset,
            ({
                let v = tensor_view(*x);
                let w = tensor_view(self.conv1d_weight);
                let k = self.conv_kernel_size as nat;
                let state = tensor_view(old(cache).conv_state);
                let input = |b: int, c: int, n: int| carried_input(state, v, b, c, n);
                let kept = v.dims.len() == 3 && state.dims.len() == 3 && is_history(
                    tensor_view(final(cache).conv_state),
                    state.joined_device(v),
                    state.dtype,
                    state.dims[2],
                    v.dims[0],
                    v.dims[2],
                    v.dims[1],
                    input,
                ) && tensor_view(final(cache).conv_state).fits();
                match r {
                    Ok(o) => {
                        &&& v.dims.len() == 3
                        &&& v.dims[1] >= 1
                        &&& w.dims == seq![v.dims[2], k]
                        &&& state.dims == seq![v.dims[0], v.dims[2], state.dims[2]]
                        &&& is_convolution(
                            tensor_view(o),
                            state.joined_device(v),
                            state.dtype,
                            w,
                            k,
                            v.dims[0],
                            v.dims[2],
                            v.dims[1],
                            input,
                        )
                        &&& tensor_view(o).fits()
                        &&& kept
                    },
                    Err(_) => {
                        &&& !(convolvable(v, w, k, state.dims[2], state.dtype) && state.dims
                            == seq![v.dims[0], v.dims[2], state.dims[2]])
                        &&& kept || final(cache).conv_state == old(cache).conv_state
                    },
                }
            }),
    {
        let ghost v = tensor_view(*x);
        let ghost w = tensor_view(self.conv1d_weight);
        let ghost sv = tensor_view(cache.conv_state);
        let k: usize = self.conv_kernel_size;
        let ghost ready = convolvable(v, w, k as nat, sv.dims[2], sv.dtype) && sv.dims == seq![
            v.dims[0],
            v.dims[2],
            sv.dims[2],
        ];
        let d = candle::dims(x);
        if d.len() != 3 {
            return Err(ModelError::Rank);
        }
        let batch: usize = d[0];
        let seq_len: usize = d[1];
        let conv_dim: usize = d[2];
        proof {
            assert(v.dims =~= seq![batch as nat, seq_len as nat, conv_dim as nat]);
        }
        let dt = candle::dtype(&cache.conv_state);
        let x_t = turned_input(x, dt)?;
        let ghost xv = tensor_view(x_t);
        let sd = candle::dims(&cache.conv_state);
        if sd.len() < 3 {
            return Err(ModelError::Rank);
        }
        let state_len: usize = sd[2];
        proof {
            assert(sv.dims[2] == state_len as nat);
            if ready {
                lemma_extent_bounds(
                    seq![batch as nat, conv_dim as nat, (state_len + seq_len) as nat],
                    2,
                );
                assert(sv.dims.update(2, 0) =~= xv.dims.update(2, 0));
                assert(sv.joined(xv, 2).dims =~= seq![
                    batch as nat,
                    conv_dim as nat,
                    (state_len + seq_len) as nat,
                ]);
            }
        }
        let hidden = ops::join(&cache.conv_state, &x_t, 2)?;
        let ghost h = tensor_view(hidden);
        proof {
            assert(sv.dims.update(2, 0) == xv.dims.update(2, 0));
            assert(sv.dims[0] == sv.dims.update(2, 0)[0]);
            assert(sv.dims[1] == sv.dims.update(2, 0)[1]);
            assert(sv.dims =~= seq![batch as nat, conv_dim as nat, state_len as nat]);
            assert(h.dims =~= seq![batch as nat, conv_dim as nat, (state_len + seq_len) as nat]);
        }
        let state = ops::narrow(&hidden, 2, seq_len, state_len)?;
        proof {
            assert(tensor_view(state).dims =~= seq![
                batch as nat,
                conv_dim as nat,
                state_len as nat,
            ]);
            assert forall|b: int, c: int, j: int|
                0 <= b < batch && 0 <= c < conv_dim && 0 <= j
                    < state_len implies #[trigger] tensor_view(state).at3(b, c, j) == carried_input(
                sv,
                v,
                b,
                c,
                seq_len - state_len + j,
            ) by {
                lemma_narrowed3(h, seq_len as int, state_len as nat, b, c, j);
                lemma_joined3(sv, xv, b, c, j + seq_len);
            }
        }
        cache.conv_state = state;
        let weight = ops::to_dtype(&self.conv1d_weight, candle::dtype(&hidden))?;
        proof {
            lemma_extent_bounds(sv.dims, 2);
        }
        let o = columns(&hidden, &weight, state_len + 1 - k, k, seq_len)?;
        proof {
            let input = |b: int, c: int, n: int| carried_input(sv, v, b, c, n);
            let first = state_len + 1 - k;
            assert forall|b: int, t: int, c: int|
                0 <= b < batch && 0 <= t < seq_len && 0 <= c < conv_dim implies #[trigger] tensor_view(
                o,
            ).at3(b, t, c) == conv_value(
                sv.joined_device(v),
                dt,
                converted(w, dt),
                c,
                window(|n: int| input(b, c, n), k as nat, t),
            ) by {
                let win = Seq::new(k as nat, |j: int| h.at3(b, c, first + t + j));
                assert(win =~= window(|n: int| input(b, c, n), k as nat, t)) by {
                    assert forall|j: int| 0 <= j < k implies win[j] == input(b, c, t - k + 1 + j) by {
                        lemma_joined3(sv, xv, b, c, first + t + j);
                    }
                }
            }
        }
        Ok(o)
    }
}

/// Convolving sequences in two goes is convolving them in one: after the convolution of `head` from its
/// start has left `state` in the cache, the convolution of `tail` that goes on from `state` gives what
/// the convolution of the whole gives at the times of `tail`, and leaves the same state.
pub proof fn law_convolution_continues(
    head: TensorView,
    tail: TensorView,
    whole: TensorView,
    weight: TensorView,
    k: nat,
    dtype: Dtype,
    state: TensorView,
    tail_out: TensorView,
    tail_state: TensorView,
    whole_out: TensorView,
    whole_state: TensorView,
)
    requires
        k >= 1,
        head.dims.len() == 3,
        tail.dims == seq![head.dims[0], tail.dims[1], head.dims[2]],
        head.dtype == tail.dtype,
        head.device == tail.device,
        whole == head.joined(tail, 1),
        is_history(
            state,
            head.device,
            dtype,
            k,
            head.dims[0],
            head.dims[2],
            head.dims[1],
            |b: int, c: int, n: int| fresh_input(head, dtype, b, c, n),
        ),
        is_convolution(
            tail_out,
            state.joined_device(tail),
            dtype,
            weight,
            k,
            head.dims[0],
            head.dims[2],
            tail.dims[1],
            |b: int, c: int, n: int| carried_input(state, tail, b, c, n),
        ),
        is_history(
            tail_state,
            state.joined_device(tail),
            dtype,
            k,
            head.dims[0],
            head.dims[2],
            tail.dims[1],
            |b: int, c: int, n: int| carried_input(state, tail, b, c, n),
        ),
        is_convolution(
            whole_out,
            whole.device,
            dtype,
            weight,
            k,
            head.dims[0],
            head.dims[2],
            whole.dims[1],
            |b: int, c: int, n: int| fresh_input(whole, dtype, b, c, n),
        ),
        is_history(
            whole_state,
            whole.device,
            dtype,
            k,
            head.dims[0],
            head.dims[2],
            whole.dims[1],
            |b: int, c: int, n: int| fresh_input(whole, dtype, b, c, n),
        ),
    ensures
        forall|b: int, t: int, c: int|
            0 <= b < head.dims[0] && 0 <= t < tail.dims[1] && 0 <= c < head.dims[2]
                ==> #[trigger] tail_out.at3(b, t, c) == whole_out.at3(b, head.dims[1] + t, c),
        forall|b: int, c: int, j: int|
            0 <= b < head.dims[0] && 0 <= c < head.dims[2] && 0 <= j < k
                ==> #[trigger] tail_state.at3(b, c, j) == whole_state.at3(b, c, j),
{
    let s = head.dims[1] as int;
    assert forall|b: int, c: int, n: int|
        0 <= b < head.dims[0] && 0 <= c < head.dims[2] && -k <= n
            < tail.dims[1] implies #[trigger] carried_input(state, tail, b, c, n) == fresh_input(
        whole,
        dtype,
        b,
        c,
        s + n,
    ) by {
        if 0 <= s + n {
            lemma_joined_middle(head, tail, b, s + n, c);
        }
        if n < 0 {
            assert(state.at3(b, c, k + n) == fresh_input(head, dtype, b, c, s - k + (k + n)));
        }
    }
    assert forall|b: int, t: int, c: int|
        0 <= b < head.dims[0] && 0 <= t < tail.dims[1] && 0 <= c
            < head.dims[2] implies #[trigger] tail_out.at3(b, t, c) == whole_out.at3(
        b,
        head.dims[1] + t,
        c,
    ) by {
        let i1 = |b: int, c: int, n: int| carried_input(state, tail, b, c, n);
        let i2 = |b: int, c: int, n: int| fresh_input(whole, dtype, b, c, n);
        assert(window(|n: int| i1(b, c, n), k, t) =~= window(|n: int| i2(b, c, n), k, s + t)) by {
            assert forall|j: int| 0 <= j < k implies #[trigger] i1(b, c, t - k + 1 + j) == i2(
                b,
                c,
                (s + t) - k + 1 + j,
            ) by {
                assert(carried_input(state, tail, b, c, t - k + 1 + j) == fresh_input(
                    whole,
                    dtype,
                    b,
                    c,
                    s + (t - k + 1 + j),
                ));
            }
        }
    }
    assert forall|b: int, c: int, j: int|
        0 <= b < head.dims[0] && 0 <= c < head.dims[2] && 0 <= j
            < k implies #[trigger] tail_state.at3(b, c, j) == whole_state.at3(b, c, j) by {
        let n = tail.dims[1] - k + j;
        assert(carried_input(state, tail, b, c, n) == fresh_input(whole, dtype, b, c, s + n));
        assert(whole_state.at3(b, c, j) == fresh_input(
            whole,
            dtype,
            b,
            c,
            whole.dims[1] - k + j,
        ));
    }
}

/// Going on twice is going on once: if `state` is what the cache holds after `head` went on from
/// `start`, then `tail` going on from `state` gives what `head` and `tail` together give at the times
/// of `tail`, and leaves the same state.
pub proof fn law_convolution_goes_on(
    start: TensorView,
    head: TensorView,
    tail: TensorView,
    whole: TensorView,
    weight: TensorView,
    k: nat,
    state: TensorView,
    tail_out: TensorView,
    tail_state: TensorView,
    whole_out: TensorView,
    whole_state: TensorView,
)
    requires
        k >= 1,
        head.dims.len() == 3,
        tail.dims == seq![head.dims[0], tail.dims[1], head.dims[2]],
        head.dtype == tail.dtype,
        head.device == tail.device,
        whole == head.joined(tail, 1),
        start.fits(),
        state.fits(),
        start.dims == seq![head.dims[0], head.dims[2], start.dims[2]],
        start.dims[2] + 1 >= k,
        is_history(
            state,
            start.joined_device(head),
            start.dtype,
            start.dims[2],
            head.dims[0],
            head.dims[2],
            head.dims[1],
            |b: int, c: int, n: int| carried_input(start, head, b, c, n),
        ),
        is_convolution(
            tail_out,
            state.joined_device(tail),
            state.dtype,
            weight,
            k,
            head.dims[0],
            head.dims[2],
            tail.dims[1],
            |b: int, c: int, n: int| carried_input(state, tail, b, c, n),
        ),
        is_history(
            tail_state,
            state.joined_device(tail),
            state.dtype,
            state.dims[2],
            head.dims[0],
            head.dims[2],
            tail.dims[1],
            |b: int, c: int, n: int| carried_input(state, tail, b, c, n),
        ),
        is_convolution(
            whole_out,
            start.joined_device(whole),
            start.dtype,
            weight,
            k,
            head.dims[0],
            head.dims[2],
            whole.dims[1],
            |b: int, c: int, n: int| carried_input(start, whole, b, c, n),
        ),
        is_history(
            whole_state,
            start.joined_device(whole),
            start.dtype,
            start.dims[2],
            head.dims[0],
            head.dims[2],
            whole.dims[1],
            |b: int, c: int, n: int| carried_input(start, whole, b, c, n),
        ),
    ensures
        forall|b: int, t: int, c: int|
            0 <= b < head.dims[0] && 0 <= t < tail.dims[1] && 0 <= c < head.dims[2]
                ==> #[trigger] tail_out.at3(b, t, c) == whole_out.at3(b, head.dims[1] + t, c),
        forall|b: int, c: int, j: int|
            0 <= b < head.dims[0] && 0 <= c < head.dims[2] && 0 <= j < start.dims[2]
                ==> #[trigger] tail_state.at3(b, c, j) == whole_state.at3(b, c, j),
{
    let s = head.dims[1] as int;
    let w = start.dims[2] as int;
    assert forall|b: int, c: int, n: int|
        0 <= b < head.dims[0] && 0 <= c < head.dims[2] && -w <= n
            < tail.dims[1] implies #[trigger] carried_input(state, tail, b, c, n) == carried_input(
        start,
        whole,
        b,
        c,
        s + n,
    ) by {
        if 0 <= s + n {
            lemma_joined_middle(head, tail, b, s + n, c);
        }
        if n < 0 {
            assert(state.at3(b, c, w + n) == carried_input(start, head, b, c, s - w + (w + n)));
        }
    }
    assert forall|b: int, t: int, c: int|
        0 <= b < head.dims[0] && 0 <= t < tail.dims[1] && 0 <= c
            < head.dims[2] implies #[trigger] tail_out.at3(b, t, c) == whole_out.at3(
        b,
        head.dims[1] + t,
        c,
    ) by {
        let i1 = |b: int, c: int, n: int| carried_input(state, tail, b, c, n);
        let i2 = |b: int, c: int, n: int| carried_input(start, whole, b, c, n);
        assert(window(|n: int| i1(b, c, n), k, t) =~= window(|n: int| i2(b, c, n), k, s + t)) by {
            assert forall|j: int| 0 <= j < k implies #[trigger] i1(b, c, t - k + 1 + j) == i2(
                b,
                c,
                (s + t) - k + 1 + j,
            ) by {
                assert(carried_input(state, tail, b, c, t - k + 1 + j) == carried_input(
                    start,
                    whole,
                    b,
                    c,
                    s + (t - k + 1 + j),
                ));
            }
        }
    }
    assert forall|b: int, c: int, j: int|
        0 <= b < head.dims[0] && 0 <= c < head.dims[2] && 0 <= j
            < start.dims[2] implies #[trigger] tail_state.at3(b, c, j) == whole_state.at3(b, c, j) by {
        let n = tail.dims[1] - w + j;
        assert(carried_input(state, tail, b, c, n) == carried_input(start, whole, b, c, s + n));
        assert(whole_state.at3(b, c, j) == carried_input(
            start,
            whole,
            b,
            c,
            whole.dims[1] - w + j,
        ));
    }
}

/// The convolution is causal: what it gives at a time depends on no later input.
pub proof fn law_convolution_is_causal(
    o1: TensorView,
    o2: TensorView,
    device: int,
    dtype: Dtype,
    weight: TensorView,
    k: nat,
    batch: nat,
    channels: nat,
    len1: nat,
    len2: nat,
    input1: spec_fn(int, int, int) -> int,
    input2: spec_fn(int, int, int) -> int,
    b: int,
    t: int,
    c: int,
)
    requires
        is_convolution(o1, device, dtype, weight, k, batch, channels, len1, input1),
        is_convolution(o2, device, dtype, weight, k, batch, channels, len2, input2),
        0 <= b < batch,
        0 <= t < len1,
        t < len2,
        0 <= c < channels,
        forall|n: int| t - k < n <= t ==> #[trigger] input1(b, c, n) == input2(b, c, n),
    ensures
        o1.at3(b, t, c) == o2.at3(b, t, c),
{
    assert(window(|n: int| input1(b, c, n), k, t) =~= window(|n: int| input2(b, c, n), k, t));
}

/// The sequences of a batch do not mix: from its start, each is convolved, and remembered, as if it
/// were alone.
pub proof fn law_sequences_start_apart(
    x: TensorView,
    b: int,
    dtype: Dtype,
    weight: TensorView,
    k: nat,
    out: TensorView,
    state: TensorView,
    alone_out: TensorView,
    alone_state: TensorView,
)
    requires
        x.dims.len() == 3,
        0 <= b < x.dims[0],
        is_convolution(
            out,
            x.device,
            dtype,
            weight,
            k,
            x.dims[0],
            x.dims[2],
            x.dims[1],
            |b: int, c: int, n: int| fresh_input(x, dtype, b, c, n),
        ),
        is_history(
            state,
            x.device,
            dtype,
            k,
            x.dims[0],
            x.dims[2],
            x.dims[1],
            |b: int, c: int, n: int| fresh_input(x, dtype, b, c, n),
        ),
        is_convolution(
            alone_out,
            x.device,
            dtype,
            weight,
            k,
            1,
            x.dims[2],
            x.dims[1],
            |i: int, c: int, n: int| fresh_input(x.narrowed(0, b, 1), dtype, i, c, n),
        ),
        is_history(
            alone_state,
            x.device,
            dtype,
            k,
            1,
            x.dims[2],
            x.dims[1],
            |i: int, c: int, n: int| fresh_input(x.narrowed(0, b, 1), dtype, i, c, n),
        ),
    ensures
        forall|t: int, c: int|
            0 <= t < x.dims[1] && 0 <= c < x.dims[2] ==> #[trigger] out.at3(b, t, c)
                == alone_out.at3(0, t, c),
        forall|c: int, j: int|
            0 <= c < x.dims[2] && 0 <= j < k ==> #[trigger] state.at3(b, c, j) == alone_state.at3(
                0,
                c,
                j,
            ),
{
    let one = x.narrowed(0, b, 1);
    assert forall|c: int, n: int| 0 <= c < x.dims[2] && n < x.dims[1] implies #[trigger] fresh_input(
        x,
        dtype,
        b,
        c,
        n,
    ) == fresh_input(one, dtype, 0, c, n) by {
        if 0 <= n {
            lemma_narrowed_first(x, b, n, c);
        }
    }
    assert forall|t: int, c: int| 0 <= t < x.dims[1] && 0 <= c < x.dims[2] implies #[trigger] out.at3(
        b,
        t,
        c,
    ) == alone_out.at3(0, t, c) by {
        let i1 = |b: int, c: int, n: int| fresh_input(x, dtype, b, c, n);
        let i2 = |i: int, c: int, n: int| fresh_input(one, dtype, i, c, n);
        assert(window(|n: int| i1(b, c, n), k, t) =~= window(|n: int| i2(0, c, n), k, t)) by {
            assert forall|j: int| 0 <= j < k implies #[trigger] i1(b, c, t - k + 1 + j) == i2(
                0,
                c,
                t - k + 1 + j,
            ) by {
                assert(fresh_input(x, dtype, b, c, t - k + 1 + j) == fresh_input(
                    one,
                    dtype,
                    0,
                    c,
                    t - k + 1 + j,
                ));
            }
        }
    }
    assert forall|c: int, j: int| 0 <= c < x.dims[2] && 0 <= j < k implies #[trigger] state.at3(b, c, j)
        == alone_state.at3(0, c, j) by {
        let n = x.dims[1] - k + j;
        assert(fresh_input(x, dtype, b, c, n) == fresh_input(one, dtype, 0, c, n));
        assert(alone_state.at3(0, c, j) == fresh_input(one, dtype, 0, c, n));
    }
}

/// Nor do sequences that go on mix: each is convolved, and remembered, as if it were alone with its part
/// of the state.
pub proof fn law_sequences_go_on_apart(
    x: TensorView,
    start: TensorView,
    b: int,
    weight: TensorView,
    k: nat,
    out: TensorView,
    state: TensorView,
    alone_out: TensorView,
    alone_state: TensorView,
)
    requires
        x.dims.len() == 3,
        start.dims == seq![x.dims[0], x.dims[2], start.dims[2]],
        start.device == x.device,
        start.dims[2] + 1 >= k,
        0 <= b < x.dims[0],
        is_convolution(
            out,
            x.device,
            start.dtype,
            weight,
            k,
            x.dims[0],
            x.dims[2],
            x.dims[1],
            |b: int, c: int, n: int| carried_input(start, x, b, c, n),
        ),
        is_history(
            state,
            x.device,
            start.dtype,
            start.dims[2],
            x.dims[0],
            x.dims[2],
            x.dims[1],
            |b: int, c: int, n: int| carried_input(start, x, b, c, n),
        ),
        is_convolution(
            alone_out,
            x.device,
            start.dtype,
            weight,
            k,
            1,
            x.dims[2],
            x.dims[1],
            |i: int, c: int, n: int|
                carried_input(start.narrowed(0, b, 1), x.narrowed(0, b, 1), i, c, n),
        ),
        is_history(
            alone_state,
            x.device,
            start.dtype,
            start.dims[2],
            1,
            x.dims[2],
            x.dims[1],
            |i: int, c: int, n: int|
                carried_input(start.narrowed(0, b, 1), x.narrowed(0, b, 1), i, c, n),
        ),
    ensures
        forall|t: int, c: int|
            0 <= t < x.dims[1] && 0 <= c < x.dims[2] ==> #[trigger] out.at3(b, t, c)
                == alone_out.at3(0, t, c),
        forall|c: int, j: int|
            0 <= c < x.dims[2] && 0 <= j < start.dims[2] ==> #[trigger] state.at3(b, c, j)
                == alone_state.at3(0, c, j),
{
    let one = x.narrowed(0, b, 1);
    let part = start.narrowed(0, b, 1);
    let w = start.dims[2] as int;
    assert forall|c: int, n: int|
        0 <= c < x.dims[2] && -w <= n < x.dims[1] implies #[trigger] carried_input(
        start,
        x,
        b,
        c,
        n,
    ) == carried_input(part, one, 0, c, n) by {
        if 0 <= n {
            lemma_narrowed_first(x, b, n, c);
        } else {
            lemma_narrowed_first(start, b, c, w + n);
        }
    }
    assert forall|t: int, c: int| 0 <= t < x.dims[1] && 0 <= c < x.dims[2] implies #[trigger] out.at3(
        b,
        t,
        c,
    ) == alone_out.at3(0, t, c) by {
        let i1 = |b: int, c: int, n: int| carried_input(start, x, b, c, n);
        let i2 = |i: int, c: int, n: int| carried_input(part, one, i, c, n);
        assert(window(|n: int| i1(b, c, n), k, t) =~= window(|n: int| i2(0, c, n), k, t)) by {
            assert forall|j: int| 0 <= j < k implies #[trigger] i1(b, c, t - k + 1 + j) == i2(
                0,
                c,
                t - k + 1 + j,
            ) by {
                assert(carried_input(start, x, b, c, t - k + 1 + j) == carried_input(
                    part,
                    one,
                    0,
                    c,
                    t - k + 1 + j,
                ));
            }
        }
    }
    assert forall|c: int, j: int|
        0 <= c < x.dims[2] && 0 <= j < start.dims[2] implies #[trigger] state.at3(b, c, j)
        == alone_state.at3(0, c, j) by {
        let n = x.dims[1] - w + j;
        assert(carried_input(start, x, b, c, n) == carried_input(part, one, 0, c, n));
        assert(alone_state.at3(0, c, j) == carried_input(part, one, 0, c, n));
    }
}

/// Elements of one sequence of a batch.
proof fn lemma_narrowed_first(v: TensorView, b: int, j: int, k: int)
    requires
        v.dims.len() == 3,
        0 <= b < v.dims[0],
        0 <= j < v.dims[1],
        0 <= k < v.dims[2],
    ensures
        v.narrowed(0, b, 1).at3(0, j, k) == v.at3(b, j, k),
{
    let dims = v.dims.update(0, 1);
    let at = seq![0int, j, k];
    lemma_in_range3(dims, 0, j, k);
    lemma_filled_at(v, dims, |at: Seq<int>| v.at(at.update(0, at[0] + b)), at);
    assert(at.update(0, at[0] + b) =~= seq![b, j, k]);
}

/// Elements of two tensors placed one behind the other along the second of three dimensions.
pub proof fn lemma_joined_middle(a: TensorView, b: TensorView, i: int, j: int, k: int)
    requires
        a.dims.len() == 3,
        b.dims.len() == 3,
        0 <= i < a.dims[0],
        0 <= j < a.dims[1] + b.dims[1],
        0 <= k < a.dims[2],
    ensures
        a.joined(b, 1).at3(i, j, k) == if j < a.dims[1] {
            a.at3(i, j, k)
        } else {
            b.at3(i, j - a.dims[1], k)
        },
{
    let dims = a.dims.update(1, a.dims[1] + b.dims[1]);
    let at = seq![i, j, k];
    lemma_in_range3(dims, i, j, k);
    lemma_filled_at(
        a,
        dims,
        |at: Seq<int>|
            if at[1] < a.dims[1] {
                a.at(at)
            } else {
                b.at(at.update(1, at[1] - a.dims[1]))
            },
        at,
    );
    assert(at.update(1, at[1] - a.dims[1]) =~= seq![i, j - a.dims[1], k]);
}

proof fn lemma_zeros3(like: TensorView, dims: Seq<nat>, i: int, j: int, k: int)
    requires
        dims.len() == 3,
        0 <= i < dims[0],
        0 <= j < dims[1],
        0 <= k < dims[2],
    ensures
        zeros_like(like, dims).at3(i, j, k) == 0,
{
    lemma_in_range3(dims, i, j, k);
    lemma_filled_at(like, dims, |at: Seq<int>| 0, seq![i, j, k]);
}

/// What the convolution from the start gives, for kernels of every size: at sequence `b`, time `t` and channel
/// `c` the SiLU of the sum of the last `k` inputs of that channel, each times the weight of its place,
/// with zeros before the first; and the cache holds the last `k` inputs of each channel, whatever it held
/// before.
pub proof fn law_convolution_values(
    layer: LinearAttention,
    x: Tensor,
    cache: &mut GdnLayerCache,
    r: Result<Tensor, ModelError>,
    b: int,
    t: int,
    c: int,
    i: int,
)
    requires
        layer.conv_kernel_size >= 1,
        tensor_view(x).fits(),
        tensor_view(layer.conv1d_weight).fits(),
        tensor_view(x).dims.len() == 3,
        tensor_view(x).dims[1] >= 1,
        tensor_view(layer.conv1d_weight).dims == seq![
            tensor_view(x).dims[2],
            layer.conv_kernel_size as nat,
        ],
        call_ensures(LinearAttention::causal_conv1d_full, (&layer, &x, cache), r),
        0 <= b < tensor_view(x).dims[0],
        0 <= t < tensor_view(x).dims[1],
        0 <= c < tensor_view(x).dims[2],
        0 <= i < layer.conv_kernel_size,
    ensures
        call_requires(LinearAttention::causal_conv1d_full, (&layer, &x, cache)),
        tensor_view(x).dtype.floating() && tensor_view(layer.conv1d_weight).dtype.floating()
            && tensor_view(old(cache).conv_state).dtype.floating() && extent(
            seq![
                tensor_view(x).dims[0],
                tensor_view(x).dims[2],
                (layer.conv_kernel_size - 1 + tensor_view(x).dims[1]) as nat,
            ],
        ) <= MAX_ELEMENTS ==> r is Ok,
        final(cache).recurrent_state == old(cache).recurrent_state,
        final(cache).seqlen_offset == old(cache).seqlen_offset,
        r is Ok ==> {
            let (v, w, o) = (
                tensor_view(x),
                tensor_view(layer.conv1d_weight),
                tensor_view(r->Ok_0),
            );
            let after = tensor_view(final(cache).conv_state);
            let dtype = tensor_view(old(cache).conv_state).dtype;
            let k = layer.conv_kernel_size as int;
            let input = |n: int|
                if n < 0 {
                    0
                } else {
                    rounded_elem(v, dtype, v.at3(b, n, c))
                };
            let products = Seq::new(
                k as nat,
                |j: int|
                    times(
                        v.device,
                        dtype,
                        input(t - k + 1 + j),
                        rounded_elem(w, dtype, w.at2(c, j)),
                    ),
            );
            &&& o.dims == v.dims
            &&& o.dtype == dtype
            &&& o.device == v.device
            &&& o.at3(b, t, c) == silu_of(v.device, dtype, row_sum(v.device, dtype, products))
            &&& after.dims == seq![v.dims[0], v.dims[2], k as nat]
            &&& after.dtype == dtype
            &&& after.device == v.device
            &&& after.at3(b, c, i) == input(v.dims[1] - k + i)
        },
{
    if r is Ok {
        let (v, w, o) = (tensor_view(x), tensor_view(layer.conv1d_weight), tensor_view(r->Ok_0));
        let dtype = tensor_view(old(cache).conv_state).dtype;
        let k = layer.conv_kernel_size as int;
        assert(o.dims =~= v.dims);
        let fresh = |b: int, c: int, n: int| fresh_input(v, dtype, b, c, n);
        let win = window(|n: int| fresh(b, c, n), k as nat, t);
        let cast = converted(w, dtype);
        assert(o.at3(b, t, c) == conv_value(v.device, dtype, cast, c, win));
        let input = |n: int|
            if n < 0 {
                0
            } else {
                rounded_elem(v, dtype, v.at3(b, n, c))
            };
        let products = Seq::new(
            k as nat,
            |j: int|
                times(v.device, dtype, input(t - k + 1 + j), rounded_elem(w, dtype, w.at2(c, j))),
        );
        assert(products =~= Seq::new(
            win.len(),
            |j: int| times(v.device, dtype, win[j], cast.at2(c, j)),
        )) by {
            assert forall|j: int| 0 <= j < k implies products[j] == times(
                v.device,
                dtype,
                win[j],
                cast.at2(c, j),
            ) by {
                lemma_in_range2(w.dims, c, j);
                lemma_converted_at(w, dtype, seq![c, j]);
            }
        }
        assert(tensor_view(final(cache).conv_state).at3(b, c, i) == fresh(b, c, v.dims[1] - k + i));
    }
}

/// What the convolution that goes on gives, for kernels of every size: the same sum, with the inputs before
/// the first taken from the end of the cache; and the cache, of the length that it had, then ends with the
/// new inputs, what it held before them moved to the front.
pub proof fn law_going_on_values(
    layer: LinearAttention,
    x: Tensor,
    cache: &mut GdnLayerCache,
    r: Result<Tensor, ModelError>,
    b: int,
    t: int,
    c: int,
    i: int,
)
    requires
        layer.conv_kernel_size >= 1,
        tensor_view(x).fits(),
        tensor_view(layer.conv1d_weight).fits(),
        tensor_view(x).dims.len() == 3,
        tensor_view(x).dims[1] >= 1,
        tensor_view(layer.conv1d_weight).dims == seq![
            tensor_view(x).dims[2],
            layer.conv_kernel_size as nat,
        ],
        tensor_view(old(cache).conv_state).fits(),
        tensor_view(old(cache).conv_state).device == tensor_view(x).device,
        tensor_view(old(cache).conv_state).dims == seq![
            tensor_view(x).dims[0],
            tensor_view(x).dims[2],
            tensor_view(old(cache).conv_state).dims[2],
        ],
        tensor_view(old(cache).conv_state).dims[2] + 1 >= layer.conv_kernel_size,
        call_ensures(LinearAttention::causal_conv1d_update, (&layer, &x, cache), r),
        0 <= b < tensor_view(x).dims[0],
        0 <= t < tensor_view(x).dims[1],
        0 <= c < tensor_view(x).dims[2],
    ensures
        call_requires(LinearAttention::causal_conv1d_update, (&layer, &x, cache)),
        tensor_view(x).dtype.floating() && tensor_view(layer.conv1d_weight).dtype.floating()
            && tensor_view(old(cache).conv_state).dtype.floating() && extent(
            seq![
                tensor_view(x).dims[0],
                tensor_view(x).dims[2],
                tensor_view(old(cache).conv_state).dims[2] + tensor_view(x).dims[1],
            ],
        ) <= MAX_ELEMENTS ==> r is Ok,
        final(cache).recurrent_state == old(cache).recurrent_state,
        final(cache).seqlen_offset == old(cache).seqlen_offset,
        r is Ok ==> {
            let (v, w, o) = (
                tensor_view(x),
                tensor_view(layer.conv1d_weight),
                tensor_view(r->Ok_0),
            );
            let before = tensor_view(old(cache).conv_state);
            let after = tensor_view(final(cache).conv_state);
            let k = layer.conv_kernel_size as int;
            let input = |n: int|
                if n < 0 {
                    before.at3(b, c, before.dims[2] + n)
                } else {
                    rounded_elem(v, before.dtype, v.at3(b, n, c))
                };
            let products = Seq::new(
                k as nat,
                |j: int|
                    times(
                        v.device,
                        before.dtype,
                        input(t - k + 1 + j),
                        rounded_elem(w, before.dtype, w.at2(c, j)),
                    ),
            );
            &&& o.dims == v.dims
            &&& o.dtype == before.dtype
            &&& o.device == v.device
            &&& o.at3(b, t, c) == silu_of(
                v.device,
                before.dtype,
                row_sum(v.device, before.dtype, products),
            )
            &&& after.dims == before.dims
            &&& after.dtype == before.dtype
            &&& after.device == v.device
            &&& 0 <= i < before.dims[2] ==> after.at3(b, c, i) == input(
                v.dims[1] - before.dims[2] + i,
            )
        },
{
    if r is Ok {
        let (v, w, o) = (tensor_view(x), tensor_view(layer.conv1d_weight), tensor_view(r->Ok_0));
        let before = tensor_view(old(cache).conv_state);
        let dtype = before.dtype;
        let k = layer.conv_kernel_size as int;
        assert(o.dims =~= v.dims);
        let carried = |b: int, c: int, n: int| carried_input(before, v, b, c, n);
        let win = window(|n: int| carried(b, c, n), k as nat, t);
        let cast = converted(w, dtype);
        assert(o.at3(b, t, c) == conv_value(v.device, dtype, cast, c, win));
        let input = |n: int|
            if n < 0 {
                before.at3(b, c, before.dims[2] + n)
            } else {
                rounded_elem(v, dtype, v.at3(b, n, c))
            };
        let products = Seq::new(
            k as nat,
            |j: int|
                times(v.device, dtype, input(t - k + 1 + j), rounded_elem(w, dtype, w.at2(c, j))),
        );
        assert(products =~= Seq::new(
            win.len(),
            |j: int| times(v.device, dtype, win[j], cast.at2(c, j)),
        )) by {
            assert forall|j: int| 0 <= j < k implies products[j] == times(
                v.device,
                dtype,
                win[j],
                cast.at2(c, j),
            ) by {
                lemma_in_range2(w.dims, c, j);
                lemma_converted_at(w, dtype, seq![c, j]);
            }
        }
        if 0 <= i < before.dims[2] {
            assert(tensor_view(final(cache).conv_state).at3(b, c, i) == carried(
                b,
                c,
                v.dims[1] - before.dims[2] + i,
            ));
        }
    }
}

} // verus!
