//! Tensor operations with the checks that keep results within memory. Where the tensor library does not
//! take tensors without elements, the result, which has none either, is made here.
use vstd::prelude::*;
use vstd::arithmetic::div_mod::lemma_fundamental_div_mod;
use candle_core::scalar::Scalar;
use candle_core::Tensor;
use crate::candle;
use crate::candle::{
    added, converted, divided, is, multiplied, packed, row_means, row_sums, tensor_packed,
    stored, tensor_view, zeros_like, silu_of, sigmoid_of, squared, root, shifted, scaled, Form,
};
use crate::error::ModelError;
use crate::shape::{coordinates, extent, product, shape, MAX_ELEMENTS};
use crate::shape::{
    lemma_extent_positive, lemma_position2, lemma_position_of_coordinates, lemma_product_within_extent,
    lemma_product_zero,
};
use crate::view::{aligned, broadcast_dims, broadcastable, stacked, Dtype, TensorView};

verus! {

/// The result of a call into the tensor library, its error made this crate's own.
fn lift(r: Result<Tensor, candle_core::Error>) -> (o: Result<Tensor, ModelError>)
    ensures
        match (r, o) {
            (Ok(a), Ok(b)) => a == b,
            (Err(e), Err(ModelError::Tensor(f))) => e == f,
            _ => false,
        },
{
    match r {
        Ok(t) => Ok(t),
        Err(e) => Err(ModelError::Tensor(e)),
    }
}

/// Whether a tensor with these dimensions stays within [`MAX_ELEMENTS`].
pub(crate) fn within_limit(dims: &Vec<usize>) -> (r: bool)
    ensures
        r == (extent(shape(dims@)) <= MAX_ELEMENTS),
{
    let mut acc: usize = 1;
    let mut i: usize = 0;
    proof {
        assert(shape(dims@).take(0) =~= Seq::<nat>::empty());
    }
    while i < dims.len()
        invariant
            i <= dims.len(),
            acc == extent(shape(dims@).take(i as int)),
            1 <= acc <= MAX_ELEMENTS,
        decreases dims.len() - i,
    {
        let d: usize = dims[i];
        proof {
            let upto = shape(dims@).take(i as int + 1);
            assert(upto.drop_last() =~= shape(dims@).take(i as int));
            assert(upto.last() == d as nat);
        }
        if d > 0 {
            proof {
                lemma_extent_positive(shape(dims@).take(i as int));
            }
            if acc > MAX_ELEMENTS / d {
                proof {
                    assert(acc * d > MAX_ELEMENTS) by (nonlinear_arith)
                        requires
                            acc > MAX_ELEMENTS / d,
                            d > 0,
                    ;
                    lemma_extent_of_prefix(shape(dims@), i as int + 1);
                }
                return false;
            }
            assert(1 <= acc * d <= MAX_ELEMENTS) by (nonlinear_arith)
                requires
                    1 <= acc <= MAX_ELEMENTS / d,
                    d > 0,
            ;
            acc = acc * d;
        }
        i = i + 1;
    }
    proof {
        assert(shape(dims@).take(dims.len() as int) =~= shape(dims@));
    }
    true
}

proof fn lemma_extent_of_prefix(dims: Seq<nat>, n: int)
    requires
        0 <= n <= dims.len(),
    ensures
        extent(dims.take(n)) <= extent(dims),
    decreases dims.len() - n,
{
    if n < dims.len() {
        lemma_extent_of_prefix(dims, n + 1);
        let next = dims.take(n + 1);
        assert(next.drop_last() =~= dims.take(n));
        lemma_extent_positive(dims.take(n));
        if next.last() > 0 {
            assert(extent(dims.take(n)) * next.last() >= extent(dims.take(n))) by (nonlinear_arith)
                requires
                    next.last() >= 1,
                    extent(dims.take(n)) >= 1,
            ;
        }
    } else {
        assert(dims.take(n) =~= dims);
    }
}

/// Whether a tensor has no more elements than one allocation can hold. The operations of this
/// crate take only such tensors; a tensor broadcast to a huge shape is not one.
pub fn addressable(x: &Tensor) -> (r: bool)
    ensures
        r == tensor_view(*x).fits(),
        r == (extent(tensor_view(*x).dims) <= MAX_ELEMENTS),
{
    let d = candle::dims(x);
    within_limit(&d)
}

pub(crate) fn is_floating(d: Dtype) -> (r: bool)
    ensures
        r == d.floating(),
{
    is_sigmoidal(d) || matches!(d, Dtype::F8E4M3)
}

fn is_sigmoidal(d: Dtype) -> (r: bool)
    ensures
        r == d.sigmoidal(),
{
    matches!(d, Dtype::BF16 | Dtype::F16 | Dtype::F32 | Dtype::F64)
}

/// `dims` is a shape for the elements of `v`.
pub open spec fn reshapable(v: TensorView, dims: Seq<nat>) -> bool {
    product(dims) == v.elems.len() && extent(dims) <= MAX_ELEMENTS
}

pub(crate) fn reshape(x: &Tensor, dims: Vec<usize>) -> (r: Result<Tensor, ModelError>)
    requires
        tensor_view(*x).fits(),
    ensures
        match r {
            Ok(o) => reshapable(tensor_view(*x), shape(dims@)) && is(
                o,
                tensor_view(*x).reshaped(shape(dims@)),
            ) && tensor_packed(o),
            Err(_) => !(reshapable(tensor_view(*x), shape(dims@))
                && tensor_view(*x).dtype.floating()),
        },
{
    if !within_limit(&dims) {
        return Err(ModelError::TooLarge);
    }
    lift(candle::reshape(x, dims))
}

/// The number of elements of a tensor with these dimensions.
fn volume(d: &Vec<usize>) -> (r: usize)
    requires
        extent(shape(d@)) <= MAX_ELEMENTS,
    ensures
        r == product(shape(d@)),
{
    let mut acc: usize = 1;
    let mut i: usize = 0;
    proof {
        assert(shape(d@).take(0) =~= Seq::<nat>::empty());
    }
    while i < d.len()
        invariant
            i <= d.len(),
            extent(shape(d@)) <= MAX_ELEMENTS,
            acc == product(shape(d@).take(i as int)),
        decreases d.len() - i,
    {
        proof {
            let upto = shape(d@).take(i as int + 1);
            assert(upto.drop_last() =~= shape(d@).take(i as int));
            assert(upto.last() == d[i as int] as nat);
            lemma_product_within_extent(upto);
            lemma_extent_of_prefix(shape(d@), i as int + 1);
        }
        acc = acc * d[i];
        i = i + 1;
    }
    proof {
        assert(shape(d@).take(d.len() as int) =~= shape(d@));
    }
    acc
}

/// The number of elements of a tensor.
pub(crate) fn count(x: &Tensor) -> (r: usize)
    requires
        tensor_view(*x).fits(),
    ensures
        r == tensor_view(*x).elems.len(),
{
    volume(&candle::dims(x))
}

/// The bytes that the storage of a quantized tensor of this shape and form takes.
pub(crate) fn bytes_of(dims: &Vec<usize>, form: Form) -> (r: usize)
    requires
        extent(shape(dims@)) <= MAX_ELEMENTS,
    ensures
        stored(shape(dims@), form, r as nat),
{
    let n = volume(dims);
    proof {
        lemma_product_within_extent(shape(dims@));
    }
    match form {
        Form::F32 => n * 4,
        Form::F16 | Form::BF16 => n * 2,
        Form::Q4_0 => n / 32 * 18,
        Form::Q4_1 => n / 32 * 20,
        Form::Q5_0 => n / 32 * 22,
        Form::Q5_1 => n / 32 * 24,
        Form::Q8_0 => n / 32 * 34,
        Form::Q8_1 => n / 32 * 36,
        Form::Q2K => n / 256 * 84,
        Form::Q3K => n / 256 * 110,
        Form::Q4K => n / 256 * 144,
        Form::Q5K => n / 256 * 176,
        Form::Q6K => n / 256 * 210,
        Form::Q8K => n / 256 * 292,
    }
}

/// The number of elements of each slice along the first dimension.
pub(crate) fn slice_size(x: &Tensor) -> (r: usize)
    requires
        tensor_view(*x).fits(),
        tensor_view(*x).dims.len() > 0,
    ensures
        r == product(tensor_view(*x).dims.drop_first()),
{
    let mut d = candle::dims(x);
    let ghost whole = shape(d@);
    let _ = d.remove(0);
    proof {
        assert(shape(d@) =~= whole.drop_first());
        lemma_extent_of_suffix(whole);
    }
    volume(&d)
}

proof fn lemma_extent_of_suffix(dims: Seq<nat>)
    requires
        dims.len() > 0,
    ensures
        extent(dims.drop_first()) <= extent(dims),
    decreases dims.len(),
{
    lemma_extent_positive(dims);
    if dims.len() > 1 {
        let head = dims.drop_last();
        let rest = dims.drop_first();
        lemma_extent_of_suffix(head);
        assert(rest.drop_last() =~= head.drop_first());
        assert(rest.last() == dims.last());
        assert(extent(head.drop_first()) * dims.last() <= extent(head) * dims.last())
            by (nonlinear_arith)
            requires
                extent(head.drop_first()) <= extent(head),
        ;
    }
}

/// The elements of `v` can be dealt out to rows of `dim`.
pub open spec fn has_rows(v: TensorView, dim: nat) -> bool {
    &&& dim > 0
    &&& v.elems.len() % dim == 0
    &&& extent(seq![v.elems.len() / dim, dim]) <= MAX_ELEMENTS
}

/// The elements of `v` in rows of `dim`.
pub open spec fn rows_of(v: TensorView, dim: nat) -> TensorView {
    v.reshaped(seq![v.elems.len() / dim, dim])
}

/// The elements of a tensor in rows of `dim`.
pub(crate) fn rows(x: &Tensor, dim: usize) -> (r: Result<Tensor, ModelError>)
    requires
        tensor_view(*x).fits(),
    ensures
        match r {
            Ok(o) => has_rows(tensor_view(*x), dim as nat) && is(
                o,
                rows_of(tensor_view(*x), dim as nat),
            ) && tensor_packed(o),
            Err(_) => !(has_rows(tensor_view(*x), dim as nat)
                && tensor_view(*x).dtype.floating()),
        },
{
    let n = count(x);
    if dim == 0 || n % dim != 0 {
        return Err(ModelError::RowLength);
    }
    let dims = vec![n / dim, dim];
    proof {
        assert(shape(dims@) =~= seq![(n / dim) as nat, dim as nat]);
        lemma_position2((n / dim) as nat, dim as nat, 0, 0);
        lemma_fundamental_div_mod(n as int, dim as int);
        assert((n / dim) * dim == dim * (n / dim)) by (nonlinear_arith);
    }
    reshape(x, dims)
}

pub(crate) fn narrow(x: &Tensor, d: usize, start: usize, len: usize) -> (r: Result<
    Tensor,
    ModelError,
>)
    requires
        tensor_view(*x).fits(),
    ensures
        match r {
            Ok(o) => d < tensor_view(*x).dims.len() && start + len <= tensor_view(*x).dims[d as int]
                && is(o, tensor_view(*x).narrowed(d as int, start as int, len as nat)),
            Err(_) => !(d < tensor_view(*x).dims.len()
                && start + len <= tensor_view(*x).dims[d as int]),
        },
{
    lift(candle::narrow(x, d, start, len))
}

pub(crate) fn transpose(x: &Tensor, a: usize, b: usize) -> (r: Result<Tensor, ModelError>)
    requires
        tensor_view(*x).fits(),
    ensures
        match r {
            Ok(o) => a < tensor_view(*x).dims.len() && b < tensor_view(*x).dims.len()
                && is(o, tensor_view(*x).transposed(a as int, b as int)),
            Err(_) => !(a < tensor_view(*x).dims.len() && b < tensor_view(*x).dims.len()),
        },
{
    lift(candle::transpose(x, a, b))
}

pub(crate) fn contiguous(x: &Tensor) -> (r: Result<Tensor, ModelError>)
    requires
        tensor_view(*x).fits(),
    ensures
        match r {
            Ok(o) => is(o, tensor_view(*x)) && tensor_packed(o),
            Err(_) => !tensor_view(*x).dtype.floating(),
        },
{
    lift(candle::contiguous(x))
}

pub(crate) fn unsqueeze(x: &Tensor, d: usize) -> (r: Result<Tensor, ModelError>)
    requires
        tensor_view(*x).fits(),
    ensures
        match r {
            Ok(o) => d <= tensor_view(*x).dims.len() && is(
                o,
                tensor_view(*x).unsqueezed(d as int),
            ),
            Err(_) => d > tensor_view(*x).dims.len(),
        },
{
    lift(candle::unsqueeze(x, d))
}

pub(crate) fn to_dtype(x: &Tensor, to: Dtype) -> (r: Result<Tensor, ModelError>)
    requires
        tensor_view(*x).fits(),
    ensures
        match r {
            Ok(o) => is(o, converted(tensor_view(*x), to)) && (packed(*x) || tensor_view(*x).dtype
                != to ==> packed(o)),
            Err(_) => tensor_view(*x).dtype != to && !(tensor_view(*x).dtype.floating()
                && to.floating()),
        },
{
    let r = if candle::dtype(x) != to && count(x) == 0 {
        candle::zeros(candle::dims(x), to, x)
    } else {
        candle::to_dtype(x, to)
    };
    proof {
        if r is Ok {
            assert(tensor_view(r->Ok_0) =~= converted(tensor_view(*x), to));
        }
    }
    lift(r)
}

pub(crate) fn zeros(dims: Vec<usize>, like: &Tensor) -> (r: Result<Tensor, ModelError>)
    ensures
        match r {
            Ok(o) => extent(shape(dims@)) <= MAX_ELEMENTS && is(
                o,
                zeros_like(tensor_view(*like), shape(dims@)),
            ) && tensor_packed(o),
            Err(e) => !(extent(shape(dims@)) <= MAX_ELEMENTS
                && tensor_view(*like).dtype.floating()) && (e is TooLarge || e is Tensor),
        },
{
    if !within_limit(&dims) {
        return Err(ModelError::TooLarge);
    }
    let r = candle::zeros(dims, candle::dtype(like), like);
    proof {
        if r is Ok {
            assert(tensor_view(r->Ok_0) =~= zeros_like(tensor_view(*like), shape(dims@)));
        }
    }
    lift(r)
}

/// The two tensors can be placed one behind the other, and the result stays within memory.
pub open spec fn joins(a: TensorView, b: TensorView, d: int) -> bool {
    &&& a.joinable(b, d)
    &&& a.dims[d] + b.dims[d] <= usize::MAX
    &&& extent(a.joined(b, d).dims) <= MAX_ELEMENTS
}

/// Whether two shapes differ at no place but `d`.
fn same_but(a: &Vec<usize>, b: &Vec<usize>, d: usize) -> (r: bool)
    requires
        d < a.len(),
        d < b.len(),
    ensures
        r == (a.len() == b.len() && shape(a@).update(d as int, 0) == shape(b@).update(d as int, 0)),
{
    if a.len() != b.len() {
        return false;
    }
    let mut i: usize = 0;
    while i < a.len()
        invariant
            i <= a.len(),
            a.len() == b.len(),
            d < a.len(),
            forall|j: int| 0 <= j < i && j != d ==> a[j] == b[j],
        decreases a.len() - i,
    {
        if i != d && a[i] != b[i] {
            proof {
                assert(shape(a@).update(d as int, 0)[i as int] != shape(b@).update(d as int, 0)[i as int]);
            }
            return false;
        }
        i = i + 1;
    }
    proof {
        assert(shape(a@).update(d as int, 0) =~= shape(b@).update(d as int, 0));
    }
    true
}

/// What is joined to a tensor that is empty along `d` is the whole, and what an empty tensor is joined
/// to stays as it is.
proof fn lemma_join_nothing(a: TensorView, b: TensorView, d: int)
    requires
        a.joinable(b, d),
        a.elems.len() == product(a.dims),
        b.elems.len() == product(b.dims),
    ensures
        a.dims[d] == 0 ==> a.joined(b, d) == b,
        a.dims[d] != 0 && a.elems.len() == 0 ==> product(a.joined(b, d).dims) == 0,
        a.elems.len() > 0 && b.elems.len() == 0 ==> a.joined(b, d) == a,
{
    let o = a.joined(b, d);
    lemma_product_zero(a.dims);
    lemma_product_zero(b.dims);
    lemma_product_zero(o.dims);
    assert(a.dims.update(d, 0) == b.dims.update(d, 0));
    assert forall|i: int| 0 <= i < a.dims.len() && i != d implies #[trigger] a.dims[i] == b.dims[i] by {
        assert(a.dims.update(d, 0)[i] == b.dims.update(d, 0)[i]);
    }
    if a.dims[d] == 0 {
        assert(o.dims =~= b.dims);
        assert forall|p: int| 0 <= p < o.elems.len() implies #[trigger] o.elems[p] == b.elems[p] by {
            let at = coordinates(o.dims, p);
            lemma_position_of_coordinates(o.dims, p);
            assert(at.update(d, at[d] - a.dims[d]) =~= at);
        }
        assert(o =~= b);
    } else if a.elems.len() == 0 {
        let i = choose|i: int| 0 <= i < a.dims.len() && #[trigger] a.dims[i] == 0;
        assert(o.dims[i] == 0);
    } else if b.elems.len() == 0 {
        let i = choose|i: int| 0 <= i < b.dims.len() && #[trigger] b.dims[i] == 0;
        assert(a.dims[i] != 0);
        assert(b.dims[d] == 0);
        assert(o.dims =~= a.dims);
        assert forall|p: int| 0 <= p < o.elems.len() implies #[trigger] o.elems[p] == a.elems[p] by {
            let at = coordinates(o.dims, p);
            lemma_position_of_coordinates(o.dims, p);
        }
        assert(o =~= a);
    }
}

/// `b` behind `a` along dimension `d`.
pub(crate) fn join(a: &Tensor, b: &Tensor, d: usize) -> (r: Result<Tensor, ModelError>)
    requires
        tensor_view(*a).fits(),
        tensor_view(*b).fits(),
        d < tensor_view(*a).dims.len(),
        d < tensor_view(*b).dims.len(),
    ensures
        match r {
            Ok(o) => joins(tensor_view(*a), tensor_view(*b), d as int) && is(
                o,
                tensor_view(*a).joined(tensor_view(*b), d as int),
            ),
            Err(_) => !(joins(tensor_view(*a), tensor_view(*b), d as int) && tensor_view(
                *a,
            ).dtype.floating()),
        },
{
    let ghost va = tensor_view(*a);
    let ghost vb = tensor_view(*b);
    let mut dims = candle::dims(a);
    let other = candle::dims(b);
    assert(va.dims[d as int] == dims[d as int] as nat);
    assert(vb.dims[d as int] == other[d as int] as nat);
    if !same_but(&dims, &other, d) || candle::dtype(a) != candle::dtype(b) {
        return Err(ModelError::Shapes);
    }
    let before: usize = dims[d];
    if other[d] > usize::MAX - before {
        return Err(ModelError::TooLarge);
    }
    let total: usize = before + other[d];
    dims.set(d, total);
    proof {
        assert(shape(dims@) =~= va.joined(vb, d as int).dims);
        lemma_join_nothing(va, vb, d as int);
        lemma_product_zero(va.dims);
    }
    if !within_limit(&dims) {
        return Err(ModelError::TooLarge);
    }
    if before == 0 {
        contiguous(b)
    } else if count(a) == 0 {
        let o = zeros(dims, b)?;
        proof {
            assert(tensor_view(o) =~= va.joined(vb, d as int));
        }
        Ok(o)
    } else if count(b) == 0 {
        contiguous(a)
    } else {
        lift(candle::cat(a, b, d))
    }
}

/// The tensors can be stacked along a new dimension `d`, and the result stays within memory.
pub open spec fn stacks(parts: Seq<TensorView>, d: int) -> bool {
    &&& parts.len() > 0
    &&& extent(parts[0].dims.insert(d, parts.len())) <= MAX_ELEMENTS
}

/// What the tensors of a list hold.
pub open spec fn owned_views(parts: Seq<Tensor>) -> Seq<TensorView> {
    parts.map_values(|t: Tensor| tensor_view(t))
}

pub(crate) fn stack(parts: &Vec<Tensor>, d: usize) -> (r: Result<Tensor, ModelError>)
    requires
        forall|i: int|
            0 <= i < parts.len() ==> tensor_view(#[trigger] parts@[i]).fits() && tensor_view(
                parts@[i],
            ).dims == tensor_view(parts@[0]).dims && tensor_view(parts@[i]).dtype == tensor_view(
                parts@[0],
            ).dtype,
        parts.len() > 0 ==> d <= tensor_view(parts@[0]).dims.len(),
    ensures
        match r {
            Ok(o) => stacks(owned_views(parts@), d as int) && is(
                o,
                stacked(owned_views(parts@), d as int),
            ),
            Err(_) => !(stacks(owned_views(parts@), d as int) && owned_views(
                parts@,
            )[0].dtype.floating()),
        },
{
    if parts.len() > 0 {
        let mut dims = candle::dims(&parts[0]);
        dims.insert(d, parts.len());
        let ghost first = tensor_view(parts@[0]).dims;
        let ghost whole = first.insert(d as int, parts.len() as nat);
        proof {
            assert(shape(dims@) =~= whole);
        }
        if !within_limit(&dims) {
            return Err(ModelError::TooLarge);
        }
        if count(&parts[0]) == 0 {
            proof {
                lemma_product_zero(first);
                let i = choose|i: int| 0 <= i < first.len() && #[trigger] first[i] == 0;
                assert(whole[if i < d { i } else { i + 1 }] == 0);
                lemma_product_zero(whole);
            }
            let o = zeros(dims, &parts[0])?;
            proof {
                assert(tensor_view(o) =~= stacked(owned_views(parts@), d as int));
            }
            return Ok(o);
        }
    }
    lift(candle::stack(parts, d))
}

/// The product of two tensors of one shape.
pub(crate) fn multiply(a: &Tensor, b: &Tensor) -> (r: Result<Tensor, ModelError>)
    requires
        tensor_view(*a).fits(),
        tensor_view(*b).fits(),
    ensures
        match r {
            Ok(o) => tensor_view(*a).dims == tensor_view(*b).dims && tensor_view(
                *a,
            ).dtype.floating() && is(o, multiplied(tensor_view(*a), tensor_view(*b))) && packed(o),
            Err(_) => !(tensor_view(*a).dims == tensor_view(*b).dims && tensor_view(*a).dtype
                == tensor_view(*b).dtype && tensor_view(*a).dtype.floating()),
        },
{
    if !is_floating(candle::dtype(a)) {
        return Err(ModelError::NotFloating);
    }
    let r = candle::mul_same(a, b);
    proof {
        if r is Ok {
            assert(tensor_view(r->Ok_0) =~= multiplied(tensor_view(*a), tensor_view(*b)));
        }
    }
    lift(r)
}

/// The sum of two tensors of one shape.
pub(crate) fn plus_same(a: &Tensor, b: &Tensor) -> (r: Result<Tensor, ModelError>)
    requires
        tensor_view(*a).fits(),
        tensor_view(*b).fits(),
    ensures
        match r {
            Ok(o) => tensor_view(*a).dims == tensor_view(*b).dims && tensor_view(
                *a,
            ).dtype.floating() && is(o, added(tensor_view(*a), tensor_view(*b))) && packed(o),
            Err(_) => !(tensor_view(*a).dims == tensor_view(*b).dims && tensor_view(*a).dtype
                == tensor_view(*b).dtype && tensor_view(*a).dtype.floating()),
        },
{
    if !is_floating(candle::dtype(a)) {
        return Err(ModelError::NotFloating);
    }
    let r = candle::add_same(a, b);
    proof {
        if r is Ok {
            assert(tensor_view(r->Ok_0) =~= added(tensor_view(*a), tensor_view(*b)));
        }
    }
    lift(r)
}

/// Two tensors can be broadcast, and the result stays within memory.
pub open spec fn broadcasts(a: Seq<nat>, b: Seq<nat>) -> bool {
    broadcastable(a, b) && extent(broadcast_dims(a, b)) <= MAX_ELEMENTS
}

/// Whether two shapes can be broadcast, but only to one that exceeds memory.
fn broadcasts_too_far(x: &Tensor, y: &Tensor) -> (r: bool)
    ensures
        r == (broadcastable(tensor_view(*x).dims, tensor_view(*y).dims) && !broadcasts(
            tensor_view(*x).dims,
            tensor_view(*y).dims,
        )),
{
    let a = candle::dims(x);
    let b = candle::dims(y);
    let n: usize = if a.len() < b.len() {
        b.len()
    } else {
        a.len()
    };
    let mut dims: Vec<usize> = Vec::new();
    let mut i: usize = 0;
    let ghost va = tensor_view(*x).dims;
    let ghost vb = tensor_view(*y).dims;
    while i < n
        invariant
            i <= n,
            n == (if a.len() < b.len() { b.len() } else { a.len() }),
            va == tensor_view(*x).dims,
            vb == tensor_view(*y).dims,
            va == shape(a@),
            vb == shape(b@),
            n == crate::view::broadcast_rank(va, vb),
            dims.len() == i,
            forall|j: int| 0 <= j < i ==> dims[j] == #[trigger] broadcast_dims(va, vb)[j],
            forall|j: int|
                0 <= j < i ==> (#[trigger] aligned(va, n as nat, j) == aligned(vb, n as nat, j)
                    || aligned(va, n as nat, j) == 1 || aligned(vb, n as nat, j) == 1),
        decreases n - i,
    {
        let l: usize = if i < n - a.len() {
            1
        } else {
            a[i - (n - a.len())]
        };
        let m: usize = if i < n - b.len() {
            1
        } else {
            b[i - (n - b.len())]
        };
        assert(l == aligned(va, n as nat, i as int));
        assert(m == aligned(vb, n as nat, i as int));
        if l != m && l != 1 && m != 1 {
            assert(!broadcastable(va, vb));
            return false;
        }
        dims.push(
            if l == 1 {
                m
            } else {
                l
            },
        );
        i = i + 1;
    }
    proof {
        assert(shape(dims@) =~= broadcast_dims(va, vb));
    }
    !within_limit(&dims)
}

pub(crate) fn broadcast_mul(a: &Tensor, b: &Tensor) -> (r: Result<Tensor, ModelError>)
    requires
        tensor_view(*a).fits(),
        tensor_view(*b).fits(),
    ensures
        match r {
            Ok(o) => broadcasts(tensor_view(*a).dims, tensor_view(*b).dims) && is(
                o,
                multiplied(tensor_view(*a), tensor_view(*b)),
            ) && packed(o),
            Err(_) => !(broadcasts(tensor_view(*a).dims, tensor_view(*b).dims) && tensor_view(
                *a,
            ).dtype == tensor_view(*b).dtype && tensor_view(*a).dtype.floating()),
        },
{
    if !is_floating(candle::dtype(a)) {
        return Err(ModelError::NotFloating);
    }
    if broadcasts_too_far(a, b) {
        return Err(ModelError::TooLarge);
    }
    let r = candle::broadcast_mul(a, b);
    proof {
        if r is Ok {
            assert(tensor_view(r->Ok_0) =~= multiplied(tensor_view(*a), tensor_view(*b)));
        }
    }
    lift(r)
}

pub(crate) fn broadcast_add(a: &Tensor, b: &Tensor) -> (r: Result<Tensor, ModelError>)
    requires
        tensor_view(*a).fits(),
        tensor_view(*b).fits(),
    ensures
        match r {
            Ok(o) => broadcasts(tensor_view(*a).dims, tensor_view(*b).dims) && is(
                o,
                added(tensor_view(*a), tensor_view(*b)),
            ) && packed(o),
            Err(_) => !(broadcasts(tensor_view(*a).dims, tensor_view(*b).dims) && tensor_view(
                *a,
            ).dtype == tensor_view(*b).dtype && tensor_view(*a).dtype.floating()),
        },
{
    if !is_floating(candle::dtype(a)) {
        return Err(ModelError::NotFloating);
    }
    if broadcasts_too_far(a, b) {
        return Err(ModelError::TooLarge);
    }
    let r = candle::broadcast_add(a, b);
    proof {
        if r is Ok {
            assert(tensor_view(r->Ok_0) =~= added(tensor_view(*a), tensor_view(*b)));
        }
    }
    lift(r)
}

pub(crate) fn broadcast_div(a: &Tensor, b: &Tensor) -> (r: Result<Tensor, ModelError>)
    requires
        tensor_view(*a).fits(),
        tensor_view(*b).fits(),
    ensures
        match r {
            Ok(o) => broadcasts(tensor_view(*a).dims, tensor_view(*b).dims) && is(
                o,
                divided(tensor_view(*a), tensor_view(*b)),
            ) && packed(o),
            Err(_) => !(broadcasts(tensor_view(*a).dims, tensor_view(*b).dims) && tensor_view(
                *a,
            ).dtype == tensor_view(*b).dtype && tensor_view(*a).dtype.floating()),
        },
{
    if !is_floating(candle::dtype(a)) {
        return Err(ModelError::NotFloating);
    }
    if broadcasts_too_far(a, b) {
        return Err(ModelError::TooLarge);
    }
    let r = candle::broadcast_div(a, b);
    proof {
        if r is Ok {
            assert(tensor_view(r->Ok_0) =~= divided(tensor_view(*a), tensor_view(*b)));
        }
    }
    lift(r)
}

/// The sums of the rows, which are not of length zero.
pub(crate) fn sum_last(x: &Tensor) -> (r: Result<Tensor, ModelError>)
    requires
        tensor_view(*x).fits(),
        packed(*x),
        tensor_view(*x).dims.len() > 0 ==> tensor_view(*x).dims.last() > 0,
    ensures
        match r {
            Ok(o) => tensor_view(*x).dims.len() > 0 && is(o, row_sums(tensor_view(*x))),
            Err(_) => !(tensor_view(*x).dims.len() > 0 && tensor_view(*x).dtype.floating()),
        },
{
    let ghost v = tensor_view(*x);
    if !is_floating(candle::dtype(x)) {
        return Err(ModelError::NotFloating);
    }
    if count(x) == 0 {
        let mut dims = candle::dims(x);
        proof {
            lemma_product_zero(v.dims);
            lemma_product_zero(v.dims.drop_last());
            let i = choose|i: int| 0 <= i < v.dims.len() && #[trigger] v.dims[i] == 0;
            assert(v.dims.drop_last()[i] == 0);
            lemma_extent_of_prefix(v.dims, v.dims.len() - 1);
            assert(v.dims.take(v.dims.len() - 1) =~= v.dims.drop_last());
        }
        let ghost whole = dims@;
        let _ = dims.pop();
        proof {
            assert(shape(dims@) =~= shape(whole).drop_last());
        }
        let o = zeros(dims, x)?;
        proof {
            assert(tensor_view(o) =~= row_sums(v));
        }
        return Ok(o);
    }
    let r = candle::sum_last(x);
    proof {
        if r is Ok {
            assert(tensor_view(r->Ok_0) =~= row_sums(v));
        }
    }
    lift(r)
}

/// The means of the rows of a tensor that has elements.
pub(crate) fn mean_last(x: &Tensor) -> (r: Result<Tensor, ModelError>)
    requires
        tensor_view(*x).fits(),
        tensor_view(*x).elems.len() > 0,
        packed(*x),
    ensures
        match r {
            Ok(o) => tensor_view(*x).dims.len() > 0 && is(o, row_means(tensor_view(*x))),
            Err(_) => !(tensor_view(*x).dims.len() > 0 && tensor_view(*x).dtype.floating()),
        },
{
    if !is_floating(candle::dtype(x)) {
        return Err(ModelError::NotFloating);
    }
    let r = candle::mean_last(x);
    proof {
        if r is Ok {
            assert(tensor_view(r->Ok_0) =~= row_means(tensor_view(*x)));
        }
    }
    lift(r)
}

/// Each element of `v` squared.
pub open spec fn squares(v: TensorView) -> TensorView {
    v.mapped(|a: int| squared(v.device, v.dtype, a))
}

/// The square root of each element of `v`.
pub open spec fn roots(v: TensorView) -> TensorView {
    v.mapped(|a: int| root(v.device, v.dtype, a))
}

/// `s` added to each element of `v`.
pub open spec fn shifts(v: TensorView, s: Scalar) -> TensorView {
    v.mapped(|a: int| shifted(v.device, v.dtype, a, s))
}

/// Each element of `v` multiplied by `s`.
pub open spec fn scales(v: TensorView, s: Scalar) -> TensorView {
    v.mapped(|a: int| scaled(v.device, v.dtype, a, s))
}

/// The sigmoid of each element of `v`.
pub open spec fn sigmoids(v: TensorView) -> TensorView {
    v.mapped(|a: int| sigmoid_of(v.device, v.dtype, a))
}

/// The SiLU of each element of `v`.
pub open spec fn silus(v: TensorView) -> TensorView {
    v.mapped(|a: int| silu_of(v.device, v.dtype, a))
}

pub(crate) fn sqr(x: &Tensor) -> (r: Result<Tensor, ModelError>)
    requires
        tensor_view(*x).fits(),
    ensures
        match r {
            Ok(o) => is(o, squares(tensor_view(*x))) && packed(o),
            Err(_) => !tensor_view(*x).dtype.floating(),
        },
{
    if !is_floating(candle::dtype(x)) {
        return Err(ModelError::NotFloating);
    }
    let r = candle::sqr(x);
    proof {
        if r is Ok {
            assert(tensor_view(r->Ok_0) =~= squares(tensor_view(*x)));
        }
    }
    lift(r)
}

pub(crate) fn sqrt(x: &Tensor) -> (r: Result<Tensor, ModelError>)
    requires
        tensor_view(*x).fits(),
    ensures
        match r {
            Ok(o) => is(o, roots(tensor_view(*x))) && packed(o),
            Err(_) => !tensor_view(*x).dtype.floating(),
        },
{
    if !is_floating(candle::dtype(x)) {
        return Err(ModelError::NotFloating);
    }
    let r = candle::sqrt(x);
    proof {
        if r is Ok {
            assert(tensor_view(r->Ok_0) =~= roots(tensor_view(*x)));
        }
    }
    lift(r)
}

pub(crate) fn add_scalar(x: &Tensor, s: &Scalar) -> (r: Result<Tensor, ModelError>)
    requires
        tensor_view(*x).fits(),
    ensures
        match r {
            Ok(o) => is(o, shifts(tensor_view(*x), *s)) && packed(o),
            Err(_) => !tensor_view(*x).dtype.floating(),
        },
{
    if !is_floating(candle::dtype(x)) {
        return Err(ModelError::NotFloating);
    }
    let r = candle::add_scalar(x, s);
    proof {
        if r is Ok {
            assert(tensor_view(r->Ok_0) =~= shifts(tensor_view(*x), *s));
        }
    }
    lift(r)
}

pub(crate) fn mul_scalar(x: &Tensor, s: &Scalar) -> (r: Result<Tensor, ModelError>)
    requires
        tensor_view(*x).fits(),
    ensures
        match r {
            Ok(o) => is(o, scales(tensor_view(*x), *s)) && packed(o),
            Err(_) => !tensor_view(*x).dtype.floating(),
        },
{
    if !is_floating(candle::dtype(x)) {
        return Err(ModelError::NotFloating);
    }
    let r = candle::mul_scalar(x, s);
    proof {
        if r is Ok {
            assert(tensor_view(r->Ok_0) =~= scales(tensor_view(*x), *s));
        }
    }
    lift(r)
}

pub(crate) fn sigmoid(x: &Tensor) -> (r: Result<Tensor, ModelError>)
    requires
        tensor_view(*x).fits(),
    ensures
        match r {
            Ok(o) => tensor_view(*x).dtype.sigmoidal() && is(o, sigmoids(tensor_view(*x)))
                && packed(o),
            Err(_) => !tensor_view(*x).dtype.sigmoidal(),
        },
{
    if !is_sigmoidal(candle::dtype(x)) {
        return Err(ModelError::NotFloating);
    }
    let r = if count(x) == 0 {
        candle::zeros(candle::dims(x), candle::dtype(x), x)
    } else {
        candle::sigmoid(x)
    };
    proof {
        if r is Ok {
            assert(tensor_view(r->Ok_0) =~= sigmoids(tensor_view(*x)));
        }
    }
    lift(r)
}

pub(crate) fn silu(x: &Tensor) -> (r: Result<Tensor, ModelError>)
    requires
        tensor_view(*x).fits(),
    ensures
        match r {
            Ok(o) => is(o, silus(tensor_view(*x))) && packed(o),
            Err(_) => !tensor_view(*x).dtype.floating(),
        },
{
    let r = candle::silu(x);
    proof {
        if r is Ok {
            assert(tensor_view(r->Ok_0) =~= silus(tensor_view(*x)));
        }
    }
    lift(r)
}

/// A tensor is addressable if its dimensions, those of zero not counted, multiply to no more than the limit.
pub proof fn law_addressable(x: Tensor, r: bool)
    requires
        call_ensures(addressable, (&x,), r),
    ensures
        call_requires(addressable, (&x,)),
        r == (extent(tensor_view(x).dims) <= MAX_ELEMENTS),
        r ==> tensor_view(x).elems.len() == product(tensor_view(x).dims),
{
}

} // verus!
