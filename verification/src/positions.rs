//! The positions of tokens, as the rotary embedding takes them.
use vstd::prelude::*;
use vstd::arithmetic::div_mod::lemma_fundamental_div_mod_converse;
use candle_core::Tensor;
use crate::candle;
use crate::candle::{is, tensor_view};
use crate::coords::{lemma_at3, lemma_in_range3};
use crate::error::ModelError;
use crate::ops::within_limit;
use crate::shape::{extent, lemma_position3, lemma_position_bounds, shape, MAX_ELEMENTS};
use crate::view::{Dtype, TensorView};

verus! {

/// The axes of the rotary embedding. For text, all have the same positions.
pub const AXES: usize = 3;

/// The position of token `t` of a sequence whose tokens before it number `offset`.
pub open spec fn token_position(offset: usize, t: int) -> u32 {
    (offset + t) as u32
}

/// The position at place `p`, axis by axis, sequence by sequence, token by token.
pub open spec fn position_at(offsets: Seq<usize>, seq_len: int, p: int) -> u32 {
    token_position(offsets[(p / seq_len) % (offsets.len() as int)], p % seq_len)
}

/// The positions of all tokens on all axes: `[axes, batch, tokens]`.
pub open spec fn positions_view(
    offsets: Seq<usize>,
    batch: nat,
    seq_len: nat,
    device: int,
) -> TensorView {
    TensorView {
        dims: seq![AXES as nat, batch, seq_len],
        dtype: Dtype::U32,
        device,
        elems: Seq::new(
            AXES as nat * batch * seq_len,
            |p: int| position_at(offsets, seq_len as int, p) as int,
        ),
    }
}

proof fn lemma_place(axis: int, b: int, t: int, batch: int, seq_len: int)
    requires
        0 <= axis,
        0 <= b < batch,
        0 <= t < seq_len,
    ensures
        (((axis * batch + b) * seq_len + t) / seq_len) % batch == b,
        ((axis * batch + b) * seq_len + t) % seq_len == t,
{
    let q = axis * batch + b;
    lemma_fundamental_div_mod_converse(q * seq_len + t, seq_len, q, t);
    lemma_fundamental_div_mod_converse(q, batch, axis, b);
}

/// On every axis, the tokens of a sequence stand at the positions that follow those before it.
pub proof fn law_positions(
    offsets: Seq<usize>,
    seq_len: nat,
    device: int,
    axis: int,
    b: int,
    t: int,
)
    requires
        0 <= axis < AXES,
        0 <= b < offsets.len(),
        0 <= t < seq_len,
    ensures
        positions_view(offsets, offsets.len(), seq_len, device).at3(axis, b, t) == token_position(
            offsets[b],
            t,
        ),
{
    let v = positions_view(offsets, offsets.len(), seq_len, device);
    lemma_place(axis, b, t, offsets.len() as int, seq_len as int);
    lemma_at3(v, axis, b, t);
    lemma_in_range3(v.dims, axis, b, t);
    lemma_position_bounds(v.dims, seq![axis, b, t]);
    lemma_position3(AXES as nat, offsets.len(), seq_len, axis, b, t);
}

/// The positions, axis by axis, sequence by sequence, token by token.
fn position_list(offsets: &[usize], seq_len: usize) -> (r: Vec<u32>)
    requires
        forall|i: int| 0 <= i < offsets.len() ==> #[trigger] offsets[i] + seq_len <= usize::MAX,
    ensures
        r.len() == AXES * offsets.len() * seq_len,
        forall|p: int|
            0 <= p < r.len() ==> #[trigger] r[p] == position_at(offsets@, seq_len as int, p),
{
    let mut positions: Vec<u32> = Vec::new();
    let mut axis: usize = 0;
    while axis < AXES
        invariant
            axis <= AXES,
            forall|i: int| 0 <= i < offsets.len() ==> #[trigger] offsets[i] + seq_len <= usize::MAX,
            positions.len() == (axis * offsets.len()) * seq_len,
            forall|p: int|
                0 <= p < positions.len() ==> #[trigger] positions[p] == position_at(
                    offsets@,
                    seq_len as int,
                    p,
                ),
        decreases AXES - axis,
    {
        let mut b: usize = 0;
        assert(axis * offsets.len() + 0 == axis * offsets.len());
        while b < offsets.len()
            invariant
                b <= offsets.len(),
                forall|i: int|
                    0 <= i < offsets.len() ==> #[trigger] offsets[i] + seq_len <= usize::MAX,
                positions.len() == (axis * offsets.len() + b) * seq_len,
                forall|p: int|
                    0 <= p < positions.len() ==> #[trigger] positions[p] == position_at(
                        offsets@,
                        seq_len as int,
                        p,
                    ),
            decreases offsets.len() - b,
        {
            let offset: usize = offsets[b];
            let mut t: usize = 0;
            while t < seq_len
                invariant
                    t <= seq_len,
                    b < offsets.len(),
                    offset == offsets[b as int],
                    offset + seq_len <= usize::MAX,
                    positions.len() == (axis * offsets.len() + b) * seq_len + t,
                    forall|p: int|
                        0 <= p < positions.len() ==> #[trigger] positions[p] == position_at(
                            offsets@,
                            seq_len as int,
                            p,
                        ),
                decreases seq_len - t,
            {
                proof {
                    lemma_place(
                        axis as int,
                        b as int,
                        t as int,
                        offsets.len() as int,
                        seq_len as int,
                    );
                }
                positions.push((offset + t) as u32);
                t = t + 1;
            }
            proof {
                let q = axis * offsets.len() + b;
                assert((q + 1) * seq_len == q * seq_len + seq_len) by (nonlinear_arith);
            }
            b = b + 1;
        }
        proof {
            assert((axis + 1) * offsets.len() == axis * offsets.len() + offsets.len())
                by (nonlinear_arith);
        }
        axis = axis + 1;
    }
    positions
}

/// The positions of all tokens, as a tensor on the device of `like`.
pub(crate) fn position_ids(offsets: &[usize], batch: usize, seq_len: usize, like: &Tensor) -> (r:
    Result<Tensor, ModelError>)
    requires
        forall|i: int| 0 <= i < offsets.len() ==> #[trigger] offsets[i] + seq_len <= usize::MAX,
    ensures
        match r {
            Ok(o) => (seq_len > 0 ==> offsets.len() == batch) && is(
                o,
                positions_view(
                    offsets@,
                    batch as nat,
                    seq_len as nat,
                    tensor_view(*like).device,
                ),
            ),
            Err(e) => {
                ||| e is TooLarge && extent(seq![AXES as nat, batch as nat, seq_len as nat])
                    > MAX_ELEMENTS
                ||| e is Offsets && seq_len > 0 && offsets.len() != batch
            },
        },
{
    if seq_len > 0 && offsets.len() != batch {
        return Err(ModelError::Offsets);
    }
    let dims = vec![AXES, batch, seq_len];
    proof {
        assert(shape(dims@) =~= seq![AXES as nat, batch as nat, seq_len as nat]);
    }
    if !within_limit(&dims) {
        return Err(ModelError::TooLarge);
    }
    let list = position_list(offsets, seq_len);
    proof {
        lemma_position3(AXES as nat, batch as nat, seq_len as nat, 0, 0, 0);
        if seq_len == 0 {
            assert(AXES * batch * seq_len == 0 && AXES * offsets.len() * seq_len == 0)
                by (nonlinear_arith)
                requires
                    seq_len == 0,
            ;
        }
        assert(list@.map_values(|v: u32| v as int) =~= positions_view(
            offsets@,
            batch as nat,
            seq_len as nat,
            tensor_view(*like).device,
        ).elems);
    }
    match candle::from_vec(list, dims, like) {
        Ok(t) => Ok(t),
        Err(e) => Err(ModelError::Tensor(e)),
    }
}

} // verus!
