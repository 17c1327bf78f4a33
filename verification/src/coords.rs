//! The elements of the results of tensor operations, coordinate by coordinate.
use vstd::prelude::*;
use vstd::arithmetic::div_mod::lemma_fundamental_div_mod_converse;
use crate::candle::{converted, rounded};
use crate::shape::{coordinates, in_range, position, product};
use crate::shape::{
    lemma_position2, lemma_position3, lemma_position4, lemma_position_bounds,
    lemma_position_of_coordinates,
};
use crate::view::{
    aligned, broadcast_dims, broadcast_rank, broadcast_source, broadcastable, lemma_filled_at,
    stacked, swapped, Dtype, TensorView,
};

verus! {

/// The number of type `to` that stands for the element `e` of `v`.
pub open spec fn rounded_elem(v: TensorView, to: Dtype, e: int) -> int {
    if v.dtype == to {
        e
    } else {
        rounded(v.device, v.dtype, to, e)
    }
}

pub proof fn lemma_in_range1(dims: Seq<nat>, i: int)
    requires
        dims.len() == 1,
        0 <= i < dims[0],
    ensures
        in_range(dims, seq![i]),
{
}

pub proof fn lemma_in_range2(dims: Seq<nat>, i: int, j: int)
    requires
        dims.len() == 2,
        0 <= i < dims[0],
        0 <= j < dims[1],
    ensures
        in_range(dims, seq![i, j]),
{
}

pub proof fn lemma_in_range3(dims: Seq<nat>, i: int, j: int, k: int)
    requires
        dims.len() == 3,
        0 <= i < dims[0],
        0 <= j < dims[1],
        0 <= k < dims[2],
    ensures
        in_range(dims, seq![i, j, k]),
{
}

pub proof fn lemma_in_range4(dims: Seq<nat>, i: int, j: int, k: int, l: int)
    requires
        dims.len() == 4,
        0 <= i < dims[0],
        0 <= j < dims[1],
        0 <= k < dims[2],
        0 <= l < dims[3],
    ensures
        in_range(dims, seq![i, j, k, l]),
{
}

pub proof fn lemma_in_range5(dims: Seq<nat>, i: int, j: int, k: int, l: int, m: int)
    requires
        dims.len() == 5,
        0 <= i < dims[0],
        0 <= j < dims[1],
        0 <= k < dims[2],
        0 <= l < dims[3],
        0 <= m < dims[4],
    ensures
        in_range(dims, seq![i, j, k, l, m]),
{
}

/// Where the elements of a tensor of two, three or four dimensions lie.
pub proof fn lemma_at2(v: TensorView, i: int, j: int)
    requires
        v.dims.len() == 2,
    ensures
        v.at2(i, j) == v.elems[i * v.dims[1] + j],
        product(v.dims) == v.dims[0] * v.dims[1],
{
    assert(v.dims =~= seq![v.dims[0], v.dims[1]]);
    lemma_position2(v.dims[0], v.dims[1], i, j);
}

pub proof fn lemma_at3(v: TensorView, i: int, j: int, k: int)
    requires
        v.dims.len() == 3,
    ensures
        v.at3(i, j, k) == v.elems[(i * v.dims[1] + j) * v.dims[2] + k],
        product(v.dims) == v.dims[0] * v.dims[1] * v.dims[2],
{
    assert(v.dims =~= seq![v.dims[0], v.dims[1], v.dims[2]]);
    lemma_position3(v.dims[0], v.dims[1], v.dims[2], i, j, k);
}

pub proof fn lemma_at4(v: TensorView, i: int, j: int, k: int, l: int)
    requires
        v.dims.len() == 4,
    ensures
        v.at4(i, j, k, l) == v.elems[((i * v.dims[1] + j) * v.dims[2] + k) * v.dims[3] + l],
        product(v.dims) == v.dims[0] * v.dims[1] * v.dims[2] * v.dims[3],
{
    assert(v.dims =~= seq![v.dims[0], v.dims[1], v.dims[2], v.dims[3]]);
    lemma_position4(v.dims[0], v.dims[1], v.dims[2], v.dims[3], i, j, k, l);
}

pub proof fn lemma_mapped_at(v: TensorView, f: spec_fn(int) -> int, at: Seq<int>)
    requires
        in_range(v.dims, at),
        v.elems.len() == product(v.dims),
    ensures
        v.mapped(f).at(at) == f(v.at(at)),
{
    lemma_position_bounds(v.dims, at);
}

pub proof fn lemma_converted_at(v: TensorView, to: Dtype, at: Seq<int>)
    requires
        in_range(v.dims, at),
        v.elems.len() == product(v.dims),
    ensures
        converted(v, to).at(at) == rounded_elem(v, to, v.at(at)),
{
    lemma_position_bounds(v.dims, at);
}

/// Elements of a slice along the last of three dimensions.
pub proof fn lemma_narrowed3(v: TensorView, start: int, len: nat, i: int, j: int, k: int)
    requires
        v.dims.len() == 3,
        0 <= i < v.dims[0],
        0 <= j < v.dims[1],
        0 <= k < len,
    ensures
        v.narrowed(2, start, len).at3(i, j, k) == v.at3(i, j, k + start),
{
    let dims = v.dims.update(2, len);
    let at = seq![i, j, k];
    lemma_in_range3(dims, i, j, k);
    lemma_filled_at(v, dims, |at: Seq<int>| v.at(at.update(2, at[2] + start)), at);
    assert(at.update(2, at[2] + start) =~= seq![i, j, k + start]);
}

/// Elements of a slice along the last of four dimensions.
pub proof fn lemma_narrowed4(v: TensorView, start: int, len: nat, i: int, j: int, k: int, l: int)
    requires
        v.dims.len() == 4,
        0 <= i < v.dims[0],
        0 <= j < v.dims[1],
        0 <= k < v.dims[2],
        0 <= l < len,
    ensures
        v.narrowed(3, start, len).at4(i, j, k, l) == v.at4(i, j, k, l + start),
{
    let dims = v.dims.update(3, len);
    let at = seq![i, j, k, l];
    lemma_in_range4(dims, i, j, k, l);
    lemma_filled_at(v, dims, |at: Seq<int>| v.at(at.update(3, at[3] + start)), at);
    assert(at.update(3, at[3] + start) =~= seq![i, j, k, l + start]);
}

/// Elements after the last two of three dimensions changed places.
pub proof fn lemma_transposed3(v: TensorView, i: int, j: int, k: int)
    requires
        v.dims.len() == 3,
        0 <= i < v.dims[0],
        0 <= j < v.dims[2],
        0 <= k < v.dims[1],
    ensures
        v.transposed(1, 2).at3(i, j, k) == v.at3(i, k, j),
        v.transposed(1, 2).dims == seq![v.dims[0], v.dims[2], v.dims[1]],
{
    let dims = swapped(v.dims, 1, 2);
    let at = seq![i, j, k];
    assert(dims =~= seq![v.dims[0], v.dims[2], v.dims[1]]);
    lemma_in_range3(dims, i, j, k);
    lemma_filled_at(v, dims, |at: Seq<int>| v.at(swapped(at, 1, 2)), at);
    assert(swapped(at, 1, 2) =~= seq![i, k, j]);
}

/// Elements after the middle two of four dimensions changed places.
pub proof fn lemma_transposed4(v: TensorView, i: int, j: int, k: int, l: int)
    requires
        v.dims.len() == 4,
        0 <= i < v.dims[0],
        0 <= j < v.dims[2],
        0 <= k < v.dims[1],
        0 <= l < v.dims[3],
    ensures
        v.transposed(1, 2).at4(i, j, k, l) == v.at4(i, k, j, l),
        v.transposed(1, 2).dims == seq![v.dims[0], v.dims[2], v.dims[1], v.dims[3]],
{
    let dims = swapped(v.dims, 1, 2);
    let at = seq![i, j, k, l];
    assert(dims =~= seq![v.dims[0], v.dims[2], v.dims[1], v.dims[3]]);
    lemma_in_range4(dims, i, j, k, l);
    lemma_filled_at(v, dims, |at: Seq<int>| v.at(swapped(at, 1, 2)), at);
    assert(swapped(at, 1, 2) =~= seq![i, k, j, l]);
}

/// Elements of two tensors placed one behind the other along the last of three dimensions.
pub proof fn lemma_joined3(a: TensorView, b: TensorView, i: int, j: int, k: int)
    requires
        a.dims.len() == 3,
        b.dims.len() == 3,
        0 <= i < a.dims[0],
        0 <= j < a.dims[1],
        0 <= k < a.dims[2] + b.dims[2],
    ensures
        a.joined(b, 2).at3(i, j, k) == if k < a.dims[2] {
            a.at3(i, j, k)
        } else {
            b.at3(i, j, k - a.dims[2])
        },
{
    let dims = a.dims.update(2, a.dims[2] + b.dims[2]);
    let at = seq![i, j, k];
    lemma_in_range3(dims, i, j, k);
    lemma_filled_at(
        a,
        dims,
        |at: Seq<int>|
            if at[2] < a.dims[2] {
                a.at(at)
            } else {
                b.at(at.update(2, at[2] - a.dims[2]))
            },
        at,
    );
    assert(at.update(2, at[2] - a.dims[2]) =~= seq![i, j, k - a.dims[2]]);
}

/// Elements of matrices stacked along a new last dimension.
pub proof fn lemma_stacked3(parts: Seq<TensorView>, i: int, j: int, k: int)
    requires
        parts.len() > 0,
        parts[0].dims.len() == 2,
        0 <= i < parts[0].dims[0],
        0 <= j < parts[0].dims[1],
        0 <= k < parts.len(),
    ensures
        stacked(parts, 2).at3(i, j, k) == parts[k].at2(i, j),
        stacked(parts, 2).dims == seq![parts[0].dims[0], parts[0].dims[1], parts.len()],
{
    let dims = parts[0].dims.insert(2, parts.len());
    let at = seq![i, j, k];
    assert(dims =~= seq![parts[0].dims[0], parts[0].dims[1], parts.len()]);
    lemma_in_range3(dims, i, j, k);
    lemma_filled_at(parts[0], dims, |at: Seq<int>| parts[at[2]].at(at.remove(2)), at);
    assert(at.remove(2) =~= seq![i, j]);
}

/// Two tensors of one shape are combined element by element.
pub proof fn lemma_zipped_same(a: TensorView, b: TensorView, f: spec_fn(int, int) -> int)
    requires
        a.dims == b.dims,
    ensures
        a.zipped(b, f).dims == a.dims,
        forall|at: Seq<int>|
            in_range(a.dims, at) ==> #[trigger] a.zipped(b, f).at(at) == f(a.at(at), b.at(at)),
{
    let n = broadcast_rank(a.dims, b.dims);
    assert(broadcast_dims(a.dims, b.dims) =~= a.dims) by {
        assert forall|i: int| 0 <= i < n implies broadcast_dims(a.dims, b.dims)[i] == a.dims[i] by {
            assert(aligned(a.dims, n, i) == a.dims[i]);
        }
    }
    assert forall|at: Seq<int>| in_range(a.dims, at) implies #[trigger] a.zipped(b, f).at(at) == f(
        a.at(at),
        b.at(at),
    ) by {
        lemma_filled_at(
            a,
            broadcast_dims(a.dims, b.dims),
            |at: Seq<int>|
                f(a.at(broadcast_source(a.dims, at)), b.at(broadcast_source(b.dims, at))),
            at,
        );
        assert(broadcast_source(a.dims, at) =~= at);
    }
}

/// An element of two tensors combined after broadcasting.
pub proof fn lemma_zipped_at(a: TensorView, b: TensorView, f: spec_fn(int, int) -> int, at: Seq<int>)
    requires
        in_range(broadcast_dims(a.dims, b.dims), at),
    ensures
        a.zipped(b, f).at(at) == f(
            a.at(broadcast_source(a.dims, at)),
            b.at(broadcast_source(b.dims, at)),
        ),
{
    lemma_filled_at(
        a,
        broadcast_dims(a.dims, b.dims),
        |at: Seq<int>| f(a.at(broadcast_source(a.dims, at)), b.at(broadcast_source(b.dims, at))),
        at,
    );
}

/// A tensor can be broadcast with one that has a single element in place of each row.
pub proof fn lemma_broadcast_row(dims: Seq<nat>)
    requires
        dims.len() > 0,
    ensures
        broadcastable(dims, dims.update(dims.len() - 1, 1)),
        broadcast_dims(dims, dims.update(dims.len() - 1, 1)) == dims,
{
    let other = dims.update(dims.len() - 1, 1);
    let n = dims.len();
    assert forall|i: int| 0 <= i < n implies #[trigger] aligned(dims, n, i) == dims[i] && aligned(
        other,
        n,
        i,
    ) == other[i] by {}
    assert(broadcast_dims(dims, other) =~= dims);
}

/// Two tensors of three dimensions with the same elements hold the same.
pub proof fn lemma_equal3(a: TensorView, b: TensorView)
    requires
        a.dims == b.dims,
        a.dims.len() == 3,
        a.dtype == b.dtype,
        a.device == b.device,
        a.elems.len() == product(a.dims),
        b.elems.len() == product(b.dims),
        forall|i: int, j: int, k: int|
            0 <= i < a.dims[0] && 0 <= j < a.dims[1] && 0 <= k < a.dims[2] ==> #[trigger] a.at3(
                i,
                j,
                k,
            ) == b.at3(i, j, k),
    ensures
        a == b,
{
    assert forall|p: int| 0 <= p < a.elems.len() implies a.elems[p] == b.elems[p] by {
        let at = coordinates(a.dims, p);
        lemma_position_of_coordinates(a.dims, p);
        assert(at =~= seq![at[0], at[1], at[2]]);
        assert(a.at3(at[0], at[1], at[2]) == b.at3(at[0], at[1], at[2]));
    }
    assert(a.elems =~= b.elems);
}

/// Two tensors of four dimensions with the same elements hold the same.
pub proof fn lemma_equal4(a: TensorView, b: TensorView)
    requires
        a.dims == b.dims,
        a.dims.len() == 4,
        a.dtype == b.dtype,
        a.device == b.device,
        a.elems.len() == product(a.dims),
        b.elems.len() == product(b.dims),
        forall|i: int, j: int, k: int, l: int|
            0 <= i < a.dims[0] && 0 <= j < a.dims[1] && 0 <= k < a.dims[2] && 0 <= l < a.dims[3]
                ==> #[trigger] a.at4(i, j, k, l) == b.at4(i, j, k, l),
    ensures
        a == b,
{
    assert forall|p: int| 0 <= p < a.elems.len() implies a.elems[p] == b.elems[p] by {
        let at = coordinates(a.dims, p);
        lemma_position_of_coordinates(a.dims, p);
        assert(at =~= seq![at[0], at[1], at[2], at[3]]);
        assert(a.at4(at[0], at[1], at[2], at[3]) == b.at4(at[0], at[1], at[2], at[3]));
    }
    assert(a.elems =~= b.elems);
}

/// Two tensors of one shape are combined place by place.
pub proof fn lemma_zipped_elems(a: TensorView, b: TensorView, f: spec_fn(int, int) -> int)
    requires
        a.dims == b.dims,
        a.elems.len() == product(a.dims),
        b.elems.len() == product(b.dims),
    ensures
        a.zipped(b, f).dims == a.dims,
        a.zipped(b, f).elems.len() == a.elems.len(),
        forall|p: int|
            0 <= p < a.elems.len() ==> #[trigger] a.zipped(b, f).elems[p] == f(
                a.elems[p],
                b.elems[p],
            ),
{
    lemma_zipped_same(a, b, f);
    let o = a.zipped(b, f);
    assert forall|p: int| 0 <= p < a.elems.len() implies #[trigger] o.elems[p] == f(
        a.elems[p],
        b.elems[p],
    ) by {
        let at = coordinates(a.dims, p);
        lemma_position_of_coordinates(a.dims, p);
        assert(o.at(at) == f(a.at(at), b.at(at)));
    }
}

/// The element at place `d` of row `i`, for tensors of any number of dimensions.
pub proof fn lemma_row_place(dims: Seq<nat>, i: int, d: int)
    requires
        dims.len() >= 1,
        0 <= i,
        0 <= d < dims.last(),
        i * dims.last() + d < product(dims),
    ensures
        ({
            let p = i * dims.last() + d;
            let last = dims.len() - 1;
            let at = coordinates(dims, p);
            &&& 0 <= p
            &&& i < product(dims.drop_last())
            &&& in_range(dims, at)
            &&& position(dims, at) == p
            &&& at.last() == d
            &&& position(dims.update(last, 1), at.update(last, 0)) == i
            &&& broadcast_source(dims, at) == at
            &&& broadcast_source(dims.update(last, 1), at) == at.update(last, 0)
            &&& broadcast_source(seq![dims.last()], at) == seq![d]
        }),
{
    let n = dims.last() as int;
    let p = i * n + d;
    let last = dims.len() - 1;
    let head = dims.drop_last();
    assert(0 <= p) by (nonlinear_arith)
        requires
            p == i * n + d,
            0 <= i,
            0 <= d < n,
    ;
    assert(i < product(head)) by (nonlinear_arith)
        requires
            i * n + d < product(head) * n,
            0 <= d < n,
            0 <= i,
    ;
    lemma_position_of_coordinates(dims, p);
    lemma_position_of_coordinates(head, i);
    lemma_fundamental_div_mod_converse(p, n, i, d);
    let at = coordinates(dims, p);
    let one = dims.update(last, 1);
    let first = at.update(last, 0);
    assert(at.drop_last() =~= coordinates(head, i));
    assert(one.drop_last() =~= head);
    assert(first.drop_last() =~= at.drop_last());
    assert(one.last() == 1 && first.last() == 0);
    assert(position(one, first) == position(head, at.drop_last()) * 1 + 0);
    assert(broadcast_source(dims, at) =~= at);
    assert(broadcast_source(one, at) =~= first);
    assert(broadcast_source(seq![dims.last()], at) =~= seq![d]);
}

/// One number for each place in a row can be broadcast to all rows.
pub proof fn lemma_broadcast_last(dims: Seq<nat>)
    requires
        dims.len() >= 1,
    ensures
        broadcastable(dims, seq![dims.last()]),
        broadcast_dims(dims, seq![dims.last()]) == dims,
        broadcastable(dims, dims),
        broadcast_dims(dims, dims) == dims,
{
    let n = dims.len();
    let w = seq![dims.last()];
    assert forall|i: int| 0 <= i < n implies #[trigger] aligned(dims, n, i) == dims[i] && aligned(
        w,
        n,
        i,
    ) == (if i < n - 1 {
        1
    } else {
        dims[i]
    }) by {}
    assert(broadcast_dims(dims, w) =~= dims);
    assert(broadcast_dims(dims, dims) =~= dims);
}

/// A vector's elements are its numbers.
pub proof fn lemma_at1(v: TensorView, i: int)
    requires
        v.dims.len() == 1,
    ensures
        v.at(seq![i]) == v.elems[i],
        product(v.dims) == v.dims[0],
{
    reveal_with_fuel(position, 2);
    reveal_with_fuel(product, 2);
    assert(v.dims.drop_last() =~= Seq::<nat>::empty());
    assert(position(v.dims, seq![i]) == i);
    assert(1 * v.dims[0] == v.dims[0]);
}

} // verus!
