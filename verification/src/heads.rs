//! Rows dealt out to attention heads and back.
use vstd::prelude::*;
use candle_core::Tensor;
use crate::candle;
use crate::candle::{is, tensor_view};
use crate::coords::{lemma_at3, lemma_at4, lemma_in_range5};
use crate::error::ModelError;
use crate::ops;
use crate::ops::{reshapable, within_limit};
use crate::shape::{extent, lemma_position4, lemma_position5, product, shape, MAX_ELEMENTS};
use crate::view::{lemma_filled_at, TensorView};

verus! {

/// The shape of `v` with its last dimension dealt out to `heads` heads of `dim` numbers.
pub open spec fn head_dims(v: TensorView, heads: nat, dim: nat) -> Seq<nat> {
    seq![v.dims[0], v.dims[1], heads, dim]
}

pub proof fn lemma_extent4(a: nat, b: nat, c: nat, d: nat)
    ensures
        c * d > 0 ==> extent(seq![a, b, c, d]) == extent(seq![a, b, c * d]),
        extent(seq![a, b, c, d]) == extent(seq![a, c, b, d]),
{
    reveal_with_fuel(extent, 5);
    assert(seq![a, b, c, d].drop_last() =~= seq![a, b, c]);
    assert(seq![a, c, b, d].drop_last() =~= seq![a, c, b]);
    assert(seq![a, b, c].drop_last() =~= seq![a, b]);
    assert(seq![a, c, b].drop_last() =~= seq![a, c]);
    assert(seq![a, b, c * d].drop_last() =~= seq![a, b]);
    assert(seq![a, b].drop_last() =~= seq![a]);
    assert(seq![a, c].drop_last() =~= seq![a]);
    let e = extent(seq![a]) as int;
    let ab = extent(seq![a, b]) as int;
    assert(c * d > 0 ==> c > 0 && d > 0 && ab * (c * d) == (ab * c) * d) by (nonlinear_arith);
    assert((e * b) * c == (e * c) * b) by (nonlinear_arith);
}

pub proof fn lemma_swap(a: nat, b: nat, c: nat, d: nat)
    ensures
        product(seq![a, b, c, d]) == product(seq![a, c, b, d]),
        extent(seq![a, b, c, d]) == extent(seq![a, c, b, d]),
{
    lemma_position4(a, b, c, d, 0, 0, 0, 0);
    lemma_position4(a, c, b, d, 0, 0, 0, 0);
    assert(a * b * c * d == a * c * b * d) by (nonlinear_arith);
    lemma_extent4(a, b, c, d);
}

/// Rows can be dealt out to heads exactly when the heads hold as many numbers as a row.
pub proof fn lemma_split_fits(v: TensorView, heads: nat, dim: nat)
    requires
        v.fits(),
        v.dims.len() == 3,
    ensures
        v.dims[2] == heads * dim && heads * dim > 0 ==> reshapable(v, head_dims(v, heads, dim)),
        reshapable(v, head_dims(v, heads, dim)) && v.dims[0] > 0 && v.dims[1] > 0 ==> v.dims[2]
            == heads * dim,
{
    let a = v.dims[0];
    let b = v.dims[1];
    lemma_at3(v, 0, 0, 0);
    lemma_position4(a, b, heads, dim, 0, 0, 0, 0);
    lemma_extent4(a, b, heads, dim);
    assert(v.dims =~= seq![a, b, v.dims[2]]);
    let n = v.dims[2];
    assert(a * b * heads * dim == a * b * (heads * dim)) by (nonlinear_arith);
    assert(a * b * n == a * b * (heads * dim) && a > 0 && b > 0 ==> n == heads * dim)
        by (nonlinear_arith);
}

/// Element `j` of head `i` stands at `i * dim + j` in its row.
pub proof fn lemma_split_at(v: TensorView, heads: nat, dim: nat, b: int, s: int, i: int, j: int)
    requires
        v.dims.len() == 3,
        v.dims[2] == heads * dim,
    ensures
        v.reshaped(head_dims(v, heads, dim)).at4(b, s, i, j) == v.at3(b, s, i * dim + j),
{
    let r = v.reshaped(head_dims(v, heads, dim));
    lemma_at4(r, b, s, i, j);
    lemma_at3(v, b, s, i * dim + j);
    let x = b * v.dims[1] + s;
    assert((x * heads + i) * dim + j == x * (heads * dim) + (i * dim + j)) by (nonlinear_arith);
}

/// The shape of `v` with its heads put side by side in rows of `n` numbers.
pub open spec fn row_dims(v: TensorView, n: nat) -> Seq<nat> {
    seq![v.dims[0], v.dims[1], n]
}

/// Heads can be put side by side when a row is as long as all of them.
pub proof fn lemma_merge_at(v: TensorView, b: int, s: int, i: int, j: int)
    requires
        v.dims.len() == 4,
    ensures
        v.reshaped(row_dims(v, v.dims[2] * v.dims[3])).at3(b, s, i * v.dims[3] + j) == v.at4(
            b,
            s,
            i,
            j,
        ),
        product(row_dims(v, v.dims[2] * v.dims[3])) == product(v.dims),
        v.dims[2] * v.dims[3] > 0 ==> extent(row_dims(v, v.dims[2] * v.dims[3])) == extent(v.dims),
{
    let n = v.dims[2] * v.dims[3];
    let r = v.reshaped(row_dims(v, n));
    assert(v.dims =~= head_dims(r, v.dims[2], v.dims[3]));
    lemma_split_at(r, v.dims[2], v.dims[3], b, s, i, j);
    assert(r.reshaped(v.dims) == v);
    lemma_at3(r, 0, 0, 0);
    lemma_at4(v, 0, 0, 0, 0);
    lemma_extent4(v.dims[0], v.dims[1], v.dims[2], v.dims[3]);
    assert(v.dims[0] * v.dims[1] * (v.dims[2] * v.dims[3]) == v.dims[0] * v.dims[1] * v.dims[2]
        * v.dims[3]) by (nonlinear_arith);
}

/// `v`, of heads, with each head standing for a group: head `h` of the result is head
/// `h % v.dims[2]` of `v`.
pub open spec fn is_tiled(o: TensorView, v: TensorView, heads: nat) -> bool {
    &&& o.dims == seq![v.dims[0], v.dims[1], heads, v.dims[3]]
    &&& o.dtype == v.dtype
    &&& o.device == v.device
    &&& forall|b: int, s: int, h: int, d: int|
        0 <= b < v.dims[0] && 0 <= s < v.dims[1] && 0 <= h < heads && 0 <= d < v.dims[3]
            ==> #[trigger] o.at4(b, s, h, d) == v.at4(b, s, h % (v.dims[2] as int), d)
}

/// The heads of `x`, over and over, until there are `heads` of them.
pub(crate) fn tile_heads(x: &Tensor, times: usize, heads: usize) -> (r: Result<Tensor, ModelError>)
    requires
        tensor_view(*x).fits(),
        tensor_view(*x).dims.len() == 4,
        times >= 1,
    ensures
        match r {
            Ok(o) => {
                let v = tensor_view(*x);
                &&& v.elems.len() > 0 ==> v.dims[2] * times == heads
                &&& is_tiled(tensor_view(o), v, heads as nat)
                &&& tensor_view(o).fits()
            },
            Err(_) => {
                let v = tensor_view(*x);
                !(v.dims[2] * times == heads && v.dtype.floating() && extent(
                    seq![v.dims[0], v.dims[1], heads as nat, v.dims[3]],
                ) <= MAX_ELEMENTS)
            },
        },
{
    let ghost v = tensor_view(*x);
    let d = candle::dims(x);
    let lifted = ops::unsqueeze(x, 2)?;
    let ghost u = tensor_view(lifted);
    proof {
        assert(v.dims =~= seq![d[0] as nat, d[1] as nat, d[2] as nat, d[3] as nat]);
        assert(u.dims =~= seq![d[0] as nat, d[1] as nat, 1, d[2] as nat, d[3] as nat]);
    }
    if d[2] > usize::MAX / times {
        proof {
            assert(d[2] * times > usize::MAX) by (nonlinear_arith)
                requires
                    d[2] > usize::MAX / times,
                    times >= 1,
            ;
        }
        return Err(ModelError::TooLarge);
    }
    proof {
        assert(d[2] * times <= usize::MAX) by (nonlinear_arith)
            requires
                d[2] <= usize::MAX / times,
                times >= 1,
        ;
    }
    let total: usize = d[2] * times;
    let whole = vec![d[0], d[1], 1usize, total, d[3]];
    let reps = vec![1usize, 1usize, 1usize, times, 1usize];
    let ghost rv = u.repeated(shape(reps@));
    proof {
        assert(shape(whole@) =~= seq![d[0] as nat, d[1] as nat, 1, total as nat, d[3] as nat]);
        assert(shape(reps@) =~= seq![1, 1, 1, times as nat, 1]);
        assert(u.dims[3] * (times as nat) == total) by (nonlinear_arith)
            requires
                u.dims[3] == d[2],
                total == d[2] * times,
        ;
        assert forall|i: int| 0 <= i < 5 implies #[trigger] rv.dims[i] == shape(whole@)[i] by {
            assert(rv.dims[i] == u.dims[i] * shape(reps@)[i]);
            if i != 3 {
                assert(u.dims[i] * shape(reps@)[i] == u.dims[i]) by (nonlinear_arith)
                    requires
                        shape(reps@)[i] == 1,
                ;
            }
        }
        assert(rv.dims =~= shape(whole@));
        lemma_extent5(d[0] as nat, d[1] as nat, total as nat, d[3] as nat);
    }
    if !within_limit(&whole) {
        return Err(ModelError::TooLarge);
    }
    let tiled = if ops::count(x) == 0 {
        proof {
            lemma_at4(v, 0, 0, 0, 0);
            lemma_position5(d[0] as nat, d[1] as nat, 1, total as nat, d[3] as nat, 0, 0, 0, 0, 0);
            lemma_no_copies(d[0] as int, d[1] as int, d[2] as int, d[3] as int, times as int);
        }
        let o = ops::zeros(whole, &lifted)?;
        proof {
            assert(tensor_view(o) =~= rv);
        }
        o
    } else {
        match candle::repeat(&lifted, reps) {
            Ok(t) => t,
            Err(e) => {
                return Err(ModelError::Tensor(e));
            },
        }
    };
    let out = vec![d[0], d[1], heads, d[3]];
    proof {
        assert(shape(out@) =~= seq![d[0] as nat, d[1] as nat, heads as nat, d[3] as nat]);
        lemma_position5(d[0] as nat, d[1] as nat, 1, total as nat, d[3] as nat, 0, 0, 0, 0, 0);
        lemma_position4(d[0] as nat, d[1] as nat, heads as nat, d[3] as nat, 0, 0, 0, 0);
        lemma_at4(v, 0, 0, 0, 0);
        lemma_tiled_count(
            d[0] as int,
            d[1] as int,
            d[2] as int,
            d[3] as int,
            times as int,
            heads as int,
        );
    }
    let o = ops::reshape(&tiled, out)?;
    proof {
        assert forall|b: int, s: int, h: int, e: int|
            0 <= b < v.dims[0] && 0 <= s < v.dims[1] && 0 <= h < heads && 0 <= e
                < v.dims[3] implies #[trigger] tensor_view(o).at4(b, s, h, e) == v.at4(
            b,
            s,
            h % (v.dims[2] as int),
            e,
        ) by {
            let hk = d[2] as int;
            lemma_positive4(d[0] as int, d[1] as int, heads as int, d[3] as int);
            assert(total == heads);
            assert(hk > 0) by (nonlinear_arith)
                requires
                    hk * times == heads,
                    heads > 0,
                    hk >= 0,
            ;
            let at = seq![b, s, 0, h, e];
            lemma_in_range5(rv.dims, b, s, 0, h, e);
            lemma_filled_at(
                u,
                rv.dims,
                |at: Seq<int>|
                    u.at(Seq::new(u.dims.len(), |i: int| at[i] % (u.dims[i] as int))),
                at,
            );
            let src = Seq::new(u.dims.len(), |i: int| at[i] % (u.dims[i] as int));
            assert(src =~= seq![b, s, 0, h % hk, e]) by {
                assert(b % (d[0] as int) == b) by (nonlinear_arith)
                    requires
                        0 <= b < d[0],
                ;
                assert(s % (d[1] as int) == s) by (nonlinear_arith)
                    requires
                        0 <= s < d[1],
                ;
                assert(e % (d[3] as int) == e) by (nonlinear_arith)
                    requires
                        0 <= e < d[3],
                ;
                assert(0int % 1 == 0);
            }
            lemma_position5(d[0] as nat, d[1] as nat, 1, total as nat, d[3] as nat, b, s, 0, h, e);
            lemma_position5(
                d[0] as nat,
                d[1] as nat,
                1,
                d[2] as nat,
                d[3] as nat,
                b,
                s,
                0,
                h % hk,
                e,
            );
            lemma_at4(tensor_view(o), b, s, h, e);
            lemma_at4(v, b, s, h % hk, e);
            assert((b * d[1] + s) * 1 + 0 == b * d[1] + s);
        }
    }
    Ok(o)
}

proof fn lemma_extent5(a: nat, b: nat, c: nat, d: nat)
    ensures
        extent(seq![a, b, 1, c, d]) == extent(seq![a, b, c, d]),
{
    reveal_with_fuel(extent, 6);
    assert(seq![a, b, 1, c, d].drop_last() =~= seq![a, b, 1, c]);
    assert(seq![a, b, 1, c].drop_last() =~= seq![a, b, 1]);
    assert(seq![a, b, 1].drop_last() =~= seq![a, b]);
    assert(seq![a, b, c, d].drop_last() =~= seq![a, b, c]);
    assert(seq![a, b, c].drop_last() =~= seq![a, b]);
    assert(extent(seq![a, b]) * 1 == extent(seq![a, b]));
}

proof fn lemma_positive4(a: int, b: int, c: int, d: int)
    requires
        a > 0,
        b > 0,
        c > 0,
        d > 0,
    ensures
        a * b * c * d > 0,
{
    assert(a * b * c * d > 0) by (nonlinear_arith)
        requires
            a > 0,
            b > 0,
            c > 0,
            d > 0,
    ;
}

proof fn lemma_no_copies(a: int, b: int, c: int, d: int, times: int)
    requires
        a * b * c * d == 0,
    ensures
        a * b * 1 * (c * times) * d == 0,
{
    assert(a * b * 1 * (c * times) * d == (a * b * c * d) * times) by (nonlinear_arith);
}

proof fn lemma_tiled_count(a: int, b: int, c: int, d: int, times: int, heads: int)
    requires
        a >= 0,
        b >= 0,
        c >= 0,
        d >= 0,
        times >= 1,
        heads >= 0,
    ensures
        c * times == heads ==> a * b * 1 * (c * times) * d == a * b * heads * d,
        a * b * 1 * (c * times) * d == a * b * heads * d && a * b * heads * d > 0 ==> c * times
            == heads,
        a * b * 1 * (c * times) * d == a * b * heads * d && a * b * c * d > 0 ==> c * times
            == heads,
{
    let x = a * b;
    let t = c * times;
    assert(x * 1 * t * d == (x * d) * t) by (nonlinear_arith);
    assert(x * heads * d == (x * d) * heads) by (nonlinear_arith);
    assert(x * c * d == (x * d) * c) by (nonlinear_arith);
    assert(x * d >= 0) by (nonlinear_arith)
        requires
            x == a * b,
            a >= 0,
            b >= 0,
            d >= 0,
    ;
    let y = x * d;
    assert(y * t == y * heads && (y * heads > 0 || y * c > 0) ==> t == heads) by (nonlinear_arith)
        requires
            y >= 0,
    ;
}

} // verus!
