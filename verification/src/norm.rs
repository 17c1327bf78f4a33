//! RMS normalisation with a gate.
use vstd::prelude::*;
use candle_core::scalar::Scalar;
use candle_core::Tensor;
use crate::candle;
use crate::candle::{
    converted, divided, is, multiplied, over, packed, root, row_mean, row_means, shifted, silu_of,
    squared, tensor_view, times,
};
use crate::coords::{
    lemma_at1, lemma_at2, lemma_broadcast_last, lemma_broadcast_row, lemma_converted_at,
    lemma_in_range1, lemma_in_range2, lemma_mapped_at, lemma_row_place, lemma_zipped_at, rounded_elem,
};
use crate::error::ModelError;
use crate::ops;
use crate::ops::{broadcasts, roots, shifts, silus, squares};
use crate::shape::{coordinates, product};
use crate::view::{aligned, broadcast_dims, broadcast_source, Dtype, TensorView};

verus! {

/// RMS normalisation of the last dimension, scaled by a weight and by the SiLU of a gate.
pub struct RmsNormGated {
    pub weight: Tensor,
    pub eps: Scalar,
}

/// Each row of `x` over the root of its mean square (`eps` added), times the weight, times the SiLU
/// of `gate`; computed in single precision and given in the type of `x`.
pub open spec fn gated_norm(
    weight: TensorView,
    eps: Scalar,
    x: TensorView,
    gate: TensorView,
) -> TensorView {
    let x32 = converted(x, Dtype::F32);
    converted(
        multiplied(
            multiplied(over_rms(x32, eps), converted(weight, Dtype::F32)),
            silus(converted(gate, Dtype::F32)),
        ),
        x.dtype,
    )
}

/// The shapes of the weight and of `gate` can be broadcast to that of `x`, and stay within memory.
pub open spec fn normalizable(weight: Seq<nat>, x: Seq<nat>, gate: Seq<nat>) -> bool {
    &&& x.len() > 0
    &&& broadcasts(x, weight)
    &&& broadcasts(broadcast_dims(x, weight), gate)
}

/// One value of the normalisation: element `d` of a row, with its weight and its gate.
pub open spec fn norm_value(
    device: int,
    row: Seq<int>,
    d: int,
    weight: int,
    eps: Scalar,
    gate: int,
) -> int {
    let f = Dtype::F32;
    let mean = row_mean(device, f, row.map_values(|a: int| squared(device, f, a)));
    let normed = over(device, f, row[d], root(device, f, shifted(device, f, mean, eps)));
    times(device, f, times(device, f, normed, weight), silu_of(device, f, gate))
}

/// Each row of `x` over the root of its mean square, `eps` added.
pub open spec fn over_rms(x: TensorView, eps: Scalar) -> TensorView {
    divided(x, roots(shifts(row_means(squares(x)), eps)))
}

/// Each row of `x` over the root of its mean square, `eps` added.
fn normalized(x: Tensor, eps: &Scalar) -> (r: Result<Tensor, ModelError>)
    requires
        tensor_view(x).fits(),
        tensor_view(x).dtype == Dtype::F32,
    ensures
        match r {
            Ok(o) => tensor_view(x).dims.len() > 0 && is(o, over_rms(tensor_view(x), *eps))
                && tensor_view(o).dims == tensor_view(x).dims,
            Err(_) => tensor_view(x).dims.len() == 0,
        },
{
    let ghost v = tensor_view(x);
    proof {
        if v.dims.len() > 0 {
            lemma_broadcast_row(v.dims);
        }
    }
    if ops::count(&x) == 0 {
        proof {
            assert(v.dims.len() > 0);
            assert(v =~= over_rms(v, *eps));
        }
        return Ok(x);
    }
    let squares = ops::sqr(&x)?;
    let variance = ops::mean_last(&squares)?;
    let shifted = ops::add_scalar(&variance, eps)?;
    let rms = ops::sqrt(&shifted)?;
    ops::broadcast_div(&x, &rms)
}

impl RmsNormGated {
    /// The normalisation of `x`, gated by `gate`.
    pub fn forward(&self, x: &Tensor, gate: &Tensor) -> (r: Result<Tensor, ModelError>)
        requires
            tensor_view(*x).fits(),
            tensor_view(*gate).fits(),
            tensor_view(self.weight).fits(),
        ensures
            match r {
                Ok(o) => normalizable(
                    tensor_view(self.weight).dims,
                    tensor_view(*x).dims,
                    tensor_view(*gate).dims,
                ) && is(
                    o,
                    gated_norm(
                        tensor_view(self.weight),
                        self.eps,
                        tensor_view(*x),
                        tensor_view(*gate),
                    ),
                ) && packed(o),
                Err(_) => !(normalizable(
                    tensor_view(self.weight).dims,
                    tensor_view(*x).dims,
                    tensor_view(*gate).dims,
                ) && tensor_view(*x).dtype.floating() && tensor_view(*gate).dtype.floating()
                    && tensor_view(self.weight).dtype.floating()),
            },
    {
        let dtype = candle::dtype(x);
        let x32 = ops::to_dtype(x, Dtype::F32)?;
        let gate32 = ops::to_dtype(gate, Dtype::F32)?;
        let gate_act = ops::silu(&gate32)?;
        let normed = normalized(x32, &self.eps)?;
        let weight32 = ops::to_dtype(&self.weight, Dtype::F32)?;
        let weighted = ops::broadcast_mul(&normed, &weight32)?;
        let gated = ops::broadcast_mul(&weighted, &gate_act)?;
        ops::to_dtype(&gated, dtype)
    }
}

/// On rows `x` with a weight for each place in a row, the normalisation is that of each row by
/// itself.
pub proof fn law_norm_by_rows(
    weight: TensorView,
    eps: Scalar,
    x: TensorView,
    gate: TensorView,
    i: int,
    d: int,
)
    requires
        x.dims.len() == 2,
        weight.dims == seq![x.dims[1]],
        gate.dims == x.dims,
        x.device == weight.device == gate.device,
        x.fits(),
        weight.fits(),
        gate.fits(),
        0 <= i < x.dims[0],
        0 <= d < x.dims[1],
    ensures
        normalizable(weight.dims, x.dims, gate.dims),
        gated_norm(weight, eps, x, gate).dims == x.dims,
        gated_norm(weight, eps, x, gate).dtype == x.dtype,
        gated_norm(weight, eps, x, gate).at2(i, d) == {
            let row = Seq::new(
                x.dims[1],
                |j: int| rounded_elem(x, Dtype::F32, x.at2(i, j)),
            );
            let y = norm_value(
                x.device,
                row,
                d,
                rounded_elem(weight, Dtype::F32, weight.at(seq![d])),
                eps,
                rounded_elem(gate, Dtype::F32, gate.at2(i, d)),
            );
            if x.dtype == Dtype::F32 {
                y
            } else {
                candle::rounded(x.device, Dtype::F32, x.dtype, y)
            }
        },
{
    let single = Dtype::F32;
    let x32 = converted(x, single);
    let w32 = converted(weight, single);
    let g32 = converted(gate, single);
    let sq = squares(x32);
    let mean = row_means(sq);
    let sum = shifts(mean, eps);
    let rms = roots(sum);
    let at = seq![i, d];
    let head = seq![i, 0];
    lemma_broadcast_row(x.dims);
    assert(rms.dims =~= seq![x.dims[0], 1]);
    assert(broadcast_dims(x.dims, weight.dims) =~= x.dims) by {
        assert(aligned(weight.dims, 2, 0) == 1);
        assert(aligned(weight.dims, 2, 1) == x.dims[1]);
    }
    assert(broadcast_dims(x.dims, x.dims) =~= x.dims);
    lemma_in_range2(x.dims, i, d);
    lemma_in_range2(rms.dims, i, 0);
    assert(broadcast_source(x.dims, at) =~= at);
    assert(broadcast_source(rms.dims, at) =~= head);
    assert(broadcast_source(weight.dims, at) =~= seq![d]);
    let div = divided(x32, rms);
    let prod = multiplied(div, w32);
    let out = multiplied(prod, silus(g32));
    lemma_zipped_at(x32, rms, |a: int, b: int| over(x32.device, x32.dtype, a, b), at);
    lemma_zipped_at(div, w32, |a: int, b: int| times(div.device, div.dtype, a, b), at);
    lemma_zipped_at(prod, silus(g32), |a: int, b: int| times(prod.device, prod.dtype, a, b), at);
    lemma_converted_at(out, x.dtype, at);
    lemma_converted_at(x, single, at);
    lemma_converted_at(gate, single, at);
    lemma_in_range1(weight.dims, d);
    lemma_converted_at(weight, single, seq![d]);
    lemma_mapped_at(g32, |a: int| silu_of(g32.device, g32.dtype, a), at);
    lemma_at2(mean, i, 0);
    assert(product(mean.dims) == x.dims[0]) by (nonlinear_arith)
        requires
            product(mean.dims) == mean.dims[0] * mean.dims[1],
            mean.dims[0] == x.dims[0],
            mean.dims[1] == 1,
    ;
    assert(i * mean.dims[1] + 0 == i) by (nonlinear_arith)
        requires
            mean.dims[1] == 1,
    ;
    lemma_mapped_at(sum, |a: int| root(sum.device, sum.dtype, a), head);
    lemma_mapped_at(mean, |a: int| shifted(mean.device, mean.dtype, a, eps), head);
    let row = Seq::new(x.dims[1], |j: int| rounded_elem(x, single, x.at2(i, j)));
    assert(sq.row(i) =~= row.map_values(|a: int| squared(x.device, single, a))) by {
        assert forall|j: int| 0 <= j < x.dims[1] implies #[trigger] sq.row(i)[j] == squared(
            x.device,
            single,
            row[j],
        ) by {
            lemma_in_range2(x.dims, i, j);
            lemma_at2(sq, i, j);
            lemma_mapped_at(x32, |a: int| squared(x32.device, x32.dtype, a), seq![i, j]);
            lemma_converted_at(x, single, seq![i, j]);
        }
    }
}

/// What a call gives, for rows of any length in tensors of any number of dimensions: each number over the
/// root of its row's mean square (`eps` added), times the weight of its place in the row, times the SiLU
/// of its gate, computed in single precision and rounded to the type of `x`. With floating-point numbers
/// it succeeds.
pub proof fn law_norm_values(
    norm: RmsNormGated,
    x: Tensor,
    gate: Tensor,
    r: Result<Tensor, ModelError>,
    i: int,
    d: int,
)
    requires
        tensor_view(x).fits(),
        tensor_view(gate).fits(),
        tensor_view(norm.weight).fits(),
        tensor_view(x).dims.len() >= 1,
        tensor_view(norm.weight).dims == seq![tensor_view(x).dims.last()],
        tensor_view(gate).dims == tensor_view(x).dims,
        call_ensures(RmsNormGated::forward, (&norm, &x, &gate), r),
    ensures
        call_requires(RmsNormGated::forward, (&norm, &x, &gate)),
        tensor_view(x).dtype.floating() && tensor_view(gate).dtype.floating() && tensor_view(
            norm.weight,
        ).dtype.floating() ==> r is Ok,
        r is Ok ==> {
            let (v, o) = (tensor_view(x), tensor_view(r->Ok_0));
            &&& o.fits()
            &&& o.dims == v.dims
            &&& o.dtype == v.dtype
            &&& o.device == v.device
        },
        r is Ok && 0 <= i && 0 <= d < tensor_view(x).dims.last() && i * tensor_view(x).dims.last() + d
            < tensor_view(x).elems.len() ==> {
            let (v, w, g) = (tensor_view(x), tensor_view(norm.weight), tensor_view(gate));
            let single = Dtype::F32;
            let n = v.dims.last();
            let squares_of_row = Seq::new(
                n,
                |j: int| squared(v.device, single, rounded_elem(v, single, v.elems[i * n + j])),
            );
            let rms = root(
                v.device,
                single,
                shifted(v.device, single, row_mean(v.device, single, squares_of_row), norm.eps),
            );
            let p = i * n + d;
            let y = times(
                v.device,
                single,
                times(
                    v.device,
                    single,
                    over(v.device, single, rounded_elem(v, single, v.elems[p]), rms),
                    rounded_elem(w, single, w.elems[d]),
                ),
                silu_of(g.device, single, rounded_elem(g, single, g.elems[p])),
            );
            tensor_view(r->Ok_0).elems[p] == if v.dtype == single {
                y
            } else {
                candle::rounded(v.device, single, v.dtype, y)
            }
        },
{
    let (v, w, g) = (tensor_view(x), tensor_view(norm.weight), tensor_view(gate));
    let single = Dtype::F32;
    let n = v.dims.last();
    lemma_broadcast_last(v.dims);
    lemma_broadcast_row(v.dims);
    if r is Ok && 0 <= i && 0 <= d < n && i * n + d < v.elems.len() {
        let p = i * n + d;
        let x32 = converted(v, single);
        let w32 = converted(w, single);
        let g32 = converted(g, single);
        let sq = squares(x32);
        let mean = row_means(sq);
        let rms = roots(shifts(mean, norm.eps));
        lemma_row_place(v.dims, i, d);
        let at = coordinates(v.dims, p);
        let last = v.dims.len() - 1;
        let first = at.update(last, 0);
        assert(mean.dims == v.dims.update(last, 1));
        assert(mean.dims.drop_last() =~= v.dims.drop_last());
        let lines = product(v.dims.drop_last());
        assert(product(mean.dims) == lines) by (nonlinear_arith)
            requires
                product(mean.dims) == lines * mean.dims.last(),
                mean.dims.last() == 1,
        ;
        assert(0 <= i < mean.elems.len());
        let row = Seq::new(
            n,
            |j: int| squared(v.device, single, rounded_elem(v, single, v.elems[i * n + j])),
        );
        assert(sq.row(i) =~= row) by {
            assert forall|j: int| 0 <= j < n implies #[trigger] sq.row(i)[j] == row[j] by {
                assert(0 <= i * n + j < product(v.dims)) by (nonlinear_arith)
                    requires
                        0 <= i < product(v.dims.drop_last()),
                        0 <= j < n,
                        product(v.dims) == product(v.dims.drop_last()) * n,
                ;
            }
        }
        assert(mean.elems[i] == row_mean(v.device, single, row));
        assert(rms.at(first) == root(
            v.device,
            single,
            shifted(v.device, single, mean.elems[i], norm.eps),
        ));
        lemma_at1(w, d);
        lemma_at1(w32, d);
        let div = divided(x32, rms);
        let prod = multiplied(div, w32);
        let out = multiplied(prod, silus(g32));
        lemma_zipped_at(x32, rms, |a: int, b: int| over(x32.device, x32.dtype, a, b), at);
        lemma_zipped_at(div, w32, |a: int, b: int| times(div.device, div.dtype, a, b), at);
        lemma_zipped_at(prod, silus(g32), |a: int, b: int| times(prod.device, prod.dtype, a, b), at);
    }
}

} // verus!
