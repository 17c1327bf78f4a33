//! The tensor library's types and functions, and what is taken to be true of them.
//!
//! The tensor library is built without its GPU features, so every tensor lives in host memory and
//! every kernel below is the one for the CPU. What the kernels make of floating-point numbers may
//! differ between machines: the names for it take the device, which stands for the machine too.
//! Nothing in this crate writes to a tensor in place, and a tensor handed to it is taken not to be
//! written to by others meanwhile. A tensor is taken to have storage for as many elements as its shape
//! says, as the tensor library's constructors ask of those who make one.
use vstd::prelude::*;
use candle_core::quantized::{GgmlDType, QMatMul, QTensor};
use candle_core::scalar::Scalar;
use candle_core::{DType, Error, Module, Tensor, D};
use candle_nn::Embedding;
use crate::shape::{extent, product, shape, MAX_ELEMENTS};
use crate::view::{broadcast_dims, broadcastable, stacked, Dtype, TensorView};

verus! {

/// A tensor: [`tensor_view`] says what it holds.
#[verifier::external_type_specification]
#[verifier::external_body]
pub struct ExTensor(candle_core::Tensor);

/// The tensor library's error, carried through.
#[verifier::external_type_specification]
#[verifier::external_body]
pub struct ExError(candle_core::Error);

/// A number with its type, carried through.
#[verifier::external_type_specification]
#[verifier::external_body]
pub struct ExScalar(candle_core::scalar::Scalar);

/// A quantized tensor: [`qtensor_view`] says what it holds.
#[verifier::external_type_specification]
#[verifier::external_body]
pub struct ExQTensor(candle_core::quantized::QTensor);

/// A linear map: [`matmul_weight`] says what it was made from.
#[verifier::external_type_specification]
#[verifier::external_body]
pub struct ExQMatMul(candle_core::quantized::QMatMul);

/// An embedding table: [`embedding_table`] and [`embedding_width`] say what it was made from.
#[verifier::external_type_specification]
#[verifier::external_body]
pub struct ExEmbedding(candle_nn::Embedding);

/// The forms in which numbers are kept in a quantized tensor.
#[derive(Clone, Copy, Debug, PartialEq, Eq, Structural)]
pub enum Form {
    F32,
    F16,
    BF16,
    Q4_0,
    Q4_1,
    Q5_0,
    Q5_1,
    Q8_0,
    Q8_1,
    Q2K,
    Q3K,
    Q4K,
    Q5K,
    Q6K,
    Q8K,
}

impl Form {
    /// The numbers are kept as they are, not in blocks with a common scale.
    pub open spec fn plain(self) -> bool {
        self == Form::F32 || self == Form::F16 || self == Form::BF16
    }

    /// How many numbers stand in a block.
    pub open spec fn block(self) -> nat {
        match self {
            Form::F32 | Form::F16 | Form::BF16 => 1,
            Form::Q4_0 | Form::Q4_1 | Form::Q5_0 | Form::Q5_1 | Form::Q8_0 | Form::Q8_1 => 32,
            _ => 256,
        }
    }

    /// How many bytes a block takes.
    pub open spec fn block_bytes(self) -> nat {
        match self {
            Form::F32 => 4,
            Form::F16 | Form::BF16 => 2,
            Form::Q4_0 => 18,
            Form::Q4_1 => 20,
            Form::Q5_0 => 22,
            Form::Q5_1 => 24,
            Form::Q8_0 => 34,
            Form::Q8_1 => 36,
            Form::Q2K => 84,
            Form::Q3K => 110,
            Form::Q4K => 144,
            Form::Q5K => 176,
            Form::Q6K => 210,
            Form::Q8K => 292,
        }
    }

    /// Rows are multiplied two blocks of 32 at a time, and have to be made up of such pairs.
    pub open spec fn paired(self) -> bool {
        self == Form::Q4_1 || self == Form::Q5_0 || self == Form::Q5_1
    }
}

/// What a tensor holds.
pub uninterp spec fn tensor_view(t: Tensor) -> TensorView;

/// `Tensor::is_contiguous`: the elements lie in memory in row-major order, without gaps.
pub uninterp spec fn tensor_packed(t: Tensor) -> bool;

/// `Layout::start_offset` of a tensor's layout: where in its storage its elements start.
pub uninterp spec fn tensor_offset(t: Tensor) -> nat;

/// The numbers that a quantized tensor holds, as `QTensor::dequantize` gives them.
pub uninterp spec fn qtensor_view(q: QTensor) -> TensorView;

/// The form in which a quantized tensor keeps its numbers.
pub uninterp spec fn qtensor_form(q: QTensor) -> Form;

/// The bytes that a quantized tensor's storage takes.
pub uninterp spec fn qtensor_bytes(q: QTensor) -> nat;

/// The numbers of the quantized tensor that a linear map was made from.
pub uninterp spec fn matmul_weight(m: QMatMul) -> TensorView;

/// The form in which that tensor kept them.
pub uninterp spec fn matmul_form(m: QMatMul) -> Form;

/// The bytes that the storage of that tensor took.
pub uninterp spec fn matmul_bytes(m: QMatMul) -> nat;

/// Whether a linear map takes rows of numbers of type `dtype`, where those are not single-precision
/// numbers.
pub uninterp spec fn matmul_accepts(m: QMatMul, dtype: Dtype) -> bool;

/// The elements of what a linear map makes of packed rows.
pub uninterp spec fn matmul_elems(m: QMatMul, x: TensorView) -> Seq<int>;

/// The table that an embedding was made from.
pub uninterp spec fn embedding_table(e: Embedding) -> TensorView;

/// Whether that table was packed.
pub uninterp spec fn embedding_packed(e: Embedding) -> bool;

/// Where in its storage that table starts.
pub uninterp spec fn embedding_offset(e: Embedding) -> nat;

/// The width that an embedding was made with.
pub uninterp spec fn embedding_width(e: Embedding) -> nat;

/// `a * b`, as the device multiplies numbers of type `dtype`.
pub uninterp spec fn times(device: int, dtype: Dtype, a: int, b: int) -> int;

/// `a + b`.
pub uninterp spec fn plus(device: int, dtype: Dtype, a: int, b: int) -> int;

/// `a / b`.
pub uninterp spec fn over(device: int, dtype: Dtype, a: int, b: int) -> int;

/// `a * a`.
pub uninterp spec fn squared(device: int, dtype: Dtype, a: int) -> int;

/// The square root of `a`.
pub uninterp spec fn root(device: int, dtype: Dtype, a: int) -> int;

/// `1 / (1 + exp(-a))`.
pub uninterp spec fn sigmoid_of(device: int, dtype: Dtype, a: int) -> int;

/// `a / (1 + exp(-a))`.
pub uninterp spec fn silu_of(device: int, dtype: Dtype, a: int) -> int;

/// `a + s`, the scalar rounded to the type of `a` first.
pub uninterp spec fn shifted(device: int, dtype: Dtype, a: int, s: Scalar) -> int;

/// `a * s`, the scalar rounded to the type of `a` first.
pub uninterp spec fn scaled(device: int, dtype: Dtype, a: int, s: Scalar) -> int;

/// The number of type `to` that stands for `a` of type `from`.
pub uninterp spec fn rounded(device: int, from: Dtype, to: Dtype, a: int) -> int;

/// The sum of a row of packed numbers.
pub uninterp spec fn row_sum(device: int, dtype: Dtype, row: Seq<int>) -> int;

/// The mean of a row of packed numbers.
pub uninterp spec fn row_mean(device: int, dtype: Dtype, row: Seq<int>) -> int;

/// `t` holds `v`, and is of a size that fits in memory.
pub open spec fn is(t: Tensor, v: TensorView) -> bool {
    tensor_view(t) == v && v.fits()
}

/// `t` is packed, or has no elements to pack.
pub open spec fn packed(t: Tensor) -> bool {
    tensor_view(t).elems.len() > 0 ==> tensor_packed(t)
}

/// `v` with its elements converted to type `to`.
pub open spec fn converted(v: TensorView, to: Dtype) -> TensorView {
    if v.dtype == to {
        v
    } else {
        TensorView { dtype: to, ..v.mapped(|a: int| rounded(v.device, v.dtype, to, a)) }
    }
}

/// The product of two tensors, element by element.
pub open spec fn multiplied(a: TensorView, b: TensorView) -> TensorView {
    a.zipped(b, |x: int, y: int| times(a.device, a.dtype, x, y))
}

/// The sum of two tensors, element by element.
pub open spec fn added(a: TensorView, b: TensorView) -> TensorView {
    a.zipped(b, |x: int, y: int| plus(a.device, a.dtype, x, y))
}

/// The quotient of two tensors, element by element.
pub open spec fn divided(a: TensorView, b: TensorView) -> TensorView {
    a.zipped(b, |x: int, y: int| over(a.device, a.dtype, x, y))
}

/// The sums of the rows of `v`, whose last dimension goes.
pub open spec fn row_sums(v: TensorView) -> TensorView {
    v.reduced(v.dims.drop_last(), |row: Seq<int>| row_sum(v.device, v.dtype, row))
}

/// The means of the rows of `v`, whose last dimension becomes 1.
pub open spec fn row_means(v: TensorView) -> TensorView {
    v.reduced(
        v.dims.update(v.dims.len() - 1, 1),
        |row: Seq<int>| row_mean(v.device, v.dtype, row),
    )
}

/// A tensor of zeros of the type and on the device of `like`.
pub open spec fn zeros_like(like: TensorView, dims: Seq<nat>) -> TensorView {
    like.filled(dims, |at: Seq<int>| 0)
}

/// `Tensor::dims`: the dimensions; there are as many elements as they say.
#[verifier::external_body]
pub(crate) fn dims(x: &Tensor) -> (r: Vec<usize>)
    ensures
        shape(r@) == tensor_view(*x).dims,
        tensor_view(*x).elems.len() == product(shape(r@)),
{
    x.dims().to_vec()
}

/// `Tensor::dtype`: the element type.
#[verifier::external_body]
pub(crate) fn dtype(x: &Tensor) -> (r: Dtype)
    ensures
        r == tensor_view(*x).dtype,
{
    match x.dtype() {
        DType::U8 => Dtype::U8, DType::U32 => Dtype::U32, DType::I16 => Dtype::I16,
        DType::I32 => Dtype::I32, DType::I64 => Dtype::I64, DType::BF16 => Dtype::BF16,
        DType::F16 => Dtype::F16, DType::F32 => Dtype::F32, DType::F64 => Dtype::F64,
        DType::F8E4M3 => Dtype::F8E4M3, DType::F6E2M3 => Dtype::F6E2M3,
        DType::F6E3M2 => Dtype::F6E3M2, DType::F4 => Dtype::F4, DType::F8E8M0 => Dtype::F8E8M0,
    }
}

/// `Tensor::is_contiguous`: whether the elements lie in row-major order, without gaps.
#[verifier::external_body]
pub(crate) fn is_packed(x: &Tensor) -> (r: bool)
    ensures
        r == tensor_packed(*x),
{
    x.is_contiguous()
}

/// `Tensor::reshape`: the same elements under other dimensions, if as many; the result is packed.
#[verifier::external_body]
pub(crate) fn reshape(x: &Tensor, dims: Vec<usize>) -> (r: Result<Tensor, Error>)
    requires
        tensor_view(*x).fits(),
        extent(shape(dims@)) <= MAX_ELEMENTS,
    ensures
        match r {
            Ok(o) => product(shape(dims@)) == tensor_view(*x).elems.len()
                && is(o, tensor_view(*x).reshaped(shape(dims@))) && tensor_packed(o),
            Err(_) => !(product(shape(dims@)) == tensor_view(*x).elems.len()
                && tensor_view(*x).dtype.floating()),
        },
{
    x.reshape(dims)
}

/// `Tensor::narrow`: a slice along one dimension, if it lies within it.
#[verifier::external_body]
pub(crate) fn narrow(x: &Tensor, d: usize, start: usize, len: usize) -> (r: Result<Tensor, Error>)
    requires
        tensor_view(*x).fits(),
    ensures
        match r {
            Ok(o) => d < tensor_view(*x).dims.len() && start + len <= tensor_view(*x).dims[d as int]
                && is(o, tensor_view(*x).narrowed(d as int, start as int, len as nat)),
            Err(_) => !(d < tensor_view(*x).dims.len()
                && start + len <= tensor_view(*x).dims[d as int]),
        },
{
    x.narrow(d, start, len)
}

/// `Tensor::transpose`: two dimensions exchanged, if the tensor has them.
#[verifier::external_body]
pub(crate) fn transpose(x: &Tensor, a: usize, b: usize) -> (r: Result<Tensor, Error>)
    requires
        tensor_view(*x).fits(),
    ensures
        match r {
            Ok(o) => a < tensor_view(*x).dims.len() && b < tensor_view(*x).dims.len()
                && is(o, tensor_view(*x).transposed(a as int, b as int)),
            Err(_) => !(a < tensor_view(*x).dims.len() && b < tensor_view(*x).dims.len()),
        },
{
    x.transpose(a, b)
}

/// `Tensor::contiguous`: the same tensor, packed.
#[verifier::external_body]
pub(crate) fn contiguous(x: &Tensor) -> (r: Result<Tensor, Error>)
    requires
        tensor_view(*x).fits(),
    ensures
        match r {
            Ok(o) => is(o, tensor_view(*x)) && tensor_packed(o),
            Err(_) => !tensor_view(*x).dtype.floating(),
        },
{
    x.contiguous()
}

/// `Tensor::unsqueeze`: a dimension of size one inserted, if its place is at most the rank.
#[verifier::external_body]
pub(crate) fn unsqueeze(x: &Tensor, d: usize) -> (r: Result<Tensor, Error>)
    requires
        tensor_view(*x).fits(),
    ensures
        match r {
            Ok(o) => d <= tensor_view(*x).dims.len() && is(
                o,
                tensor_view(*x).unsqueezed(d as int),
            ),
            Err(_) => d > tensor_view(*x).dims.len(),
        },
{
    x.unsqueeze(d)
}

/// `Tensor::repeat` of a tensor that has elements: copies side by side along each dimension.
#[verifier::external_body]
pub(crate) fn repeat(x: &Tensor, reps: Vec<usize>) -> (r: Result<Tensor, Error>)
    requires
        tensor_view(*x).fits(),
        tensor_view(*x).elems.len() > 0,
        reps.len() == tensor_view(*x).dims.len(),
        forall|i: int| 0 <= i < reps.len() ==> reps[i] >= 1,
        extent(tensor_view(*x).repeated(shape(reps@)).dims) <= MAX_ELEMENTS,
    ensures
        match r {
            Ok(o) => is(o, tensor_view(*x).repeated(shape(reps@))),
            Err(_) => !tensor_view(*x).dtype.floating(),
        },
{
    x.repeat(reps)
}

/// `Tensor::cat` of two tensors that have elements: one behind the other along one dimension, if their
/// shapes and types allow it.
#[verifier::external_body]
pub(crate) fn cat(a: &Tensor, b: &Tensor, d: usize) -> (r: Result<Tensor, Error>)
    requires
        tensor_view(*a).fits(),
        tensor_view(*b).fits(),
        tensor_view(*a).elems.len() > 0,
        tensor_view(*b).elems.len() > 0,
        tensor_view(*a).joinable(tensor_view(*b), d as int) ==> extent(
            tensor_view(*a).joined(tensor_view(*b), d as int).dims,
        ) <= MAX_ELEMENTS,
    ensures
        match r {
            Ok(o) => tensor_view(*a).joinable(tensor_view(*b), d as int) && is(
                o,
                tensor_view(*a).joined(tensor_view(*b), d as int),
            ),
            Err(_) => !(tensor_view(*a).joinable(tensor_view(*b), d as int) && tensor_view(
                *a,
            ).dtype.floating()),
        },
{
    Tensor::cat(&[a, b], d)
}

/// `Tensor::stack`: tensors of one shape and type that have elements, as the slices of a new dimension.
#[verifier::external_body]
pub(crate) fn stack(parts: &Vec<Tensor>, d: usize) -> (r: Result<Tensor, Error>)
    requires
        forall|i: int|
            0 <= i < parts.len() ==> tensor_view(#[trigger] parts@[i]).fits() && tensor_view(
                parts@[i],
            ).elems.len() > 0 && tensor_view(parts@[i]).dims == tensor_view(parts@[0]).dims
                && tensor_view(parts@[i]).dtype == tensor_view(parts@[0]).dtype,
        parts.len() > 0 ==> d <= tensor_view(parts@[0]).dims.len() && extent(
            tensor_view(parts@[0]).dims.insert(d as int, parts.len() as nat),
        ) <= MAX_ELEMENTS,
    ensures
        match r {
            Ok(o) => parts.len() > 0 && is(
                o,
                stacked(parts@.map_values(|t: Tensor| tensor_view(t)), d as int),
            ),
            Err(_) => !(parts.len() > 0 && tensor_view(parts@[0]).dtype.floating()),
        },
{
    Tensor::stack(parts, d)
}

/// `Tensor::zeros`, on the device of another tensor; the result is packed.
#[verifier::external_body]
pub(crate) fn zeros(dims: Vec<usize>, dtype: Dtype, like: &Tensor) -> (r: Result<Tensor, Error>)
    requires
        extent(shape(dims@)) <= MAX_ELEMENTS,
    ensures
        match r {
            Ok(o) => is(
                o,
                (TensorView { dtype, ..zeros_like(tensor_view(*like), shape(dims@)) }),
            ) && tensor_packed(o),
            Err(_) => !dtype.floating(),
        },
{
    let dtype = match dtype {
        Dtype::U8 => DType::U8, Dtype::U32 => DType::U32, Dtype::I16 => DType::I16,
        Dtype::I32 => DType::I32, Dtype::I64 => DType::I64, Dtype::BF16 => DType::BF16,
        Dtype::F16 => DType::F16, Dtype::F32 => DType::F32, Dtype::F64 => DType::F64,
        Dtype::F8E4M3 => DType::F8E4M3, Dtype::F6E2M3 => DType::F6E2M3,
        Dtype::F6E3M2 => DType::F6E3M2, Dtype::F4 => DType::F4, Dtype::F8E8M0 => DType::F8E8M0,
    };
    Tensor::zeros(dims, dtype, like.device())
}

/// `Tensor::from_vec`, on the device of another tensor: the numbers in row-major order.
#[verifier::external_body]
pub(crate) fn from_vec(values: Vec<u32>, dims: Vec<usize>, like: &Tensor) -> (r: Result<
    Tensor,
    Error,
>)
    requires
        values.len() == product(shape(dims@)),
        extent(shape(dims@)) <= MAX_ELEMENTS,
    ensures
        match r {
            Ok(o) => is(
                o,
                (TensorView {
                    dims: shape(dims@),
                    dtype: Dtype::U32,
                    device: tensor_view(*like).device,
                    elems: values@.map_values(|v: u32| v as int),
                }),
            ),
            Err(_) => false,
        },
{
    Tensor::from_vec(values, dims, like.device())
}

/// `Tensor::to_dtype`: each element converted, if there are any; the same tensor if it has that type
/// already.
#[verifier::external_body]
pub(crate) fn to_dtype(x: &Tensor, to: Dtype) -> (r: Result<Tensor, Error>)
    requires
        tensor_view(*x).fits(),
        tensor_view(*x).dtype == to || tensor_view(*x).elems.len() > 0,
    ensures
        match r {
            Ok(o) => if tensor_view(*x).dtype == to {
                is(o, tensor_view(*x)) && (packed(*x) ==> packed(o))
            } else {
                is(
                    o,
                    (TensorView {
                        dtype: to,
                        ..tensor_view(*x).mapped(
                            |a: int| rounded(tensor_view(*x).device, tensor_view(*x).dtype, to, a),
                        )
                    }),
                ) && packed(o)
            },
            Err(_) => tensor_view(*x).dtype != to && !(tensor_view(*x).dtype.floating()
                && to.floating()),
        },
{
    x.to_dtype(match to {
        Dtype::U8 => DType::U8, Dtype::U32 => DType::U32, Dtype::I16 => DType::I16,
        Dtype::I32 => DType::I32, Dtype::I64 => DType::I64, Dtype::BF16 => DType::BF16,
        Dtype::F16 => DType::F16, Dtype::F32 => DType::F32, Dtype::F64 => DType::F64,
        Dtype::F8E4M3 => DType::F8E4M3, Dtype::F6E2M3 => DType::F6E2M3,
        Dtype::F6E3M2 => DType::F6E3M2, Dtype::F4 => DType::F4, Dtype::F8E8M0 => DType::F8E8M0,
    })
}

/// `Tensor::mul`: the product, element by element, of two tensors of one shape.
#[verifier::external_body]
pub(crate) fn mul_same(a: &Tensor, b: &Tensor) -> (r: Result<Tensor, Error>)
    requires
        tensor_view(*a).fits(),
        tensor_view(*b).fits(),
        tensor_view(*a).dtype.floating(),
    ensures
        match r {
            Ok(o) => tensor_view(*a).dims == tensor_view(*b).dims && is(
                o,
                tensor_view(*a).zipped(
                    tensor_view(*b),
                    |x: int, y: int| times(tensor_view(*a).device, tensor_view(*a).dtype, x, y),
                ),
            ) && packed(o),
            Err(_) => !(tensor_view(*a).dims == tensor_view(*b).dims && tensor_view(*a).dtype
                == tensor_view(*b).dtype),
        },
{
    a * b
}

/// `Tensor::add`: the sum, element by element, of two tensors of one shape.
#[verifier::external_body]
pub(crate) fn add_same(a: &Tensor, b: &Tensor) -> (r: Result<Tensor, Error>)
    requires
        tensor_view(*a).fits(),
        tensor_view(*b).fits(),
        tensor_view(*a).dtype.floating(),
    ensures
        match r {
            Ok(o) => tensor_view(*a).dims == tensor_view(*b).dims && is(
                o,
                tensor_view(*a).zipped(
                    tensor_view(*b),
                    |x: int, y: int| plus(tensor_view(*a).device, tensor_view(*a).dtype, x, y),
                ),
            ) && packed(o),
            Err(_) => !(tensor_view(*a).dims == tensor_view(*b).dims && tensor_view(*a).dtype
                == tensor_view(*b).dtype),
        },
{
    a + b
}

/// `Tensor::broadcast_mul`: the product, element by element, after broadcasting.
#[verifier::external_body]
pub(crate) fn broadcast_mul(a: &Tensor, b: &Tensor) -> (r: Result<Tensor, Error>)
    requires
        tensor_view(*a).fits(),
        tensor_view(*b).fits(),
        tensor_view(*a).dtype.floating(),
        broadcastable(tensor_view(*a).dims, tensor_view(*b).dims) ==> extent(
            broadcast_dims(tensor_view(*a).dims, tensor_view(*b).dims),
        ) <= MAX_ELEMENTS,
    ensures
        match r {
            Ok(o) => broadcastable(tensor_view(*a).dims, tensor_view(*b).dims) && is(
                o,
                tensor_view(*a).zipped(
                    tensor_view(*b),
                    |x: int, y: int| times(tensor_view(*a).device, tensor_view(*a).dtype, x, y),
                ),
            ) && packed(o),
            Err(_) => !(broadcastable(tensor_view(*a).dims, tensor_view(*b).dims) && tensor_view(
                *a,
            ).dtype == tensor_view(*b).dtype),
        },
{
    a.broadcast_mul(b)
}

/// `Tensor::broadcast_add`: the sum, element by element, after broadcasting.
#[verifier::external_body]
pub(crate) fn broadcast_add(a: &Tensor, b: &Tensor) -> (r: Result<Tensor, Error>)
    requires
        tensor_view(*a).fits(),
        tensor_view(*b).fits(),
        tensor_view(*a).dtype.floating(),
        broadcastable(tensor_view(*a).dims, tensor_view(*b).dims) ==> extent(
            broadcast_dims(tensor_view(*a).dims, tensor_view(*b).dims),
        ) <= MAX_ELEMENTS,
    ensures
        match r {
            Ok(o) => broadcastable(tensor_view(*a).dims, tensor_view(*b).dims) && is(
                o,
                tensor_view(*a).zipped(
                    tensor_view(*b),
                    |x: int, y: int| plus(tensor_view(*a).device, tensor_view(*a).dtype, x, y),
                ),
            ) && packed(o),
            Err(_) => !(broadcastable(tensor_view(*a).dims, tensor_view(*b).dims) && tensor_view(
                *a,
            ).dtype == tensor_view(*b).dtype),
        },
{
    a.broadcast_add(b)
}

/// `Tensor::broadcast_div`: the quotient, element by element, after broadcasting.
#[verifier::external_body]
pub(crate) fn broadcast_div(a: &Tensor, b: &Tensor) -> (r: Result<Tensor, Error>)
    requires
        tensor_view(*a).fits(),
        tensor_view(*b).fits(),
        tensor_view(*a).dtype.floating(),
        broadcastable(tensor_view(*a).dims, tensor_view(*b).dims) ==> extent(
            broadcast_dims(tensor_view(*a).dims, tensor_view(*b).dims),
        ) <= MAX_ELEMENTS,
    ensures
        match r {
            Ok(o) => broadcastable(tensor_view(*a).dims, tensor_view(*b).dims) && is(
                o,
                tensor_view(*a).zipped(
                    tensor_view(*b),
                    |x: int, y: int| over(tensor_view(*a).device, tensor_view(*a).dtype, x, y),
                ),
            ) && packed(o),
            Err(_) => !(broadcastable(tensor_view(*a).dims, tensor_view(*b).dims) && tensor_view(
                *a,
            ).dtype == tensor_view(*b).dtype),
        },
{
    a.broadcast_div(b)
}

/// `Tensor::sum` over the last dimension of a tensor that has elements and is packed: the sum of each
/// row is a function of the row.
#[verifier::external_body]
pub(crate) fn sum_last(x: &Tensor) -> (r: Result<Tensor, Error>)
    requires
        tensor_view(*x).fits(),
        tensor_view(*x).elems.len() > 0,
        tensor_view(*x).dtype.floating(),
        tensor_packed(*x),
    ensures
        match r {
            Ok(o) => tensor_view(*x).dims.len() > 0 && is(
                o,
                tensor_view(*x).reduced(
                    tensor_view(*x).dims.drop_last(),
                    |row: Seq<int>| row_sum(tensor_view(*x).device, tensor_view(*x).dtype, row),
                ),
            ),
            Err(_) => tensor_view(*x).dims.len() == 0,
        },
{
    x.sum(D::Minus1)
}

/// `Tensor::mean_keepdim` over the last dimension of a tensor that has elements and is packed: the mean
/// of each row is a function of the row.
#[verifier::external_body]
pub(crate) fn mean_last(x: &Tensor) -> (r: Result<Tensor, Error>)
    requires
        tensor_view(*x).fits(),
        tensor_view(*x).elems.len() > 0,
        tensor_view(*x).dtype.floating(),
        tensor_packed(*x),
    ensures
        match r {
            Ok(o) => tensor_view(*x).dims.len() > 0 && is(
                o,
                tensor_view(*x).reduced(
                    tensor_view(*x).dims.update(tensor_view(*x).dims.len() - 1, 1),
                    |row: Seq<int>| row_mean(tensor_view(*x).device, tensor_view(*x).dtype, row),
                ),
            ),
            Err(_) => tensor_view(*x).dims.len() == 0,
        },
{
    x.mean_keepdim(D::Minus1)
}

/// `Tensor::sqr`: the square of each element.
#[verifier::external_body]
pub(crate) fn sqr(x: &Tensor) -> (r: Result<Tensor, Error>)
    requires
        tensor_view(*x).fits(),
        tensor_view(*x).dtype.floating(),
    ensures
        match r {
            Ok(o) => is(
                o,
                tensor_view(*x).mapped(
                    |a: int| squared(tensor_view(*x).device, tensor_view(*x).dtype, a),
                ),
            ) && packed(o),
            Err(_) => false,
        },
{
    x.sqr()
}

/// `Tensor::sqrt`: the square root of each element.
#[verifier::external_body]
pub(crate) fn sqrt(x: &Tensor) -> (r: Result<Tensor, Error>)
    requires
        tensor_view(*x).fits(),
        tensor_view(*x).dtype.floating(),
    ensures
        match r {
            Ok(o) => is(
                o,
                tensor_view(*x).mapped(
                    |a: int| root(tensor_view(*x).device, tensor_view(*x).dtype, a),
                ),
            ) && packed(o),
            Err(_) => false,
        },
{
    x.sqrt()
}

/// `Tensor + f64`: the scalar added to each element.
#[verifier::external_body]
pub(crate) fn add_scalar(x: &Tensor, s: &Scalar) -> (r: Result<Tensor, Error>)
    requires
        tensor_view(*x).fits(),
        tensor_view(*x).dtype.floating(),
    ensures
        match r {
            Ok(o) => is(
                o,
                tensor_view(*x).mapped(
                    |a: int| shifted(tensor_view(*x).device, tensor_view(*x).dtype, a, *s),
                ),
            ) && packed(o),
            Err(_) => false,
        },
{
    x + s.to_f64()
}

/// `Tensor * f64`: each element multiplied by the scalar.
#[verifier::external_body]
pub(crate) fn mul_scalar(x: &Tensor, s: &Scalar) -> (r: Result<Tensor, Error>)
    requires
        tensor_view(*x).fits(),
        tensor_view(*x).dtype.floating(),
    ensures
        match r {
            Ok(o) => is(
                o,
                tensor_view(*x).mapped(
                    |a: int| scaled(tensor_view(*x).device, tensor_view(*x).dtype, a, *s),
                ),
            ) && packed(o),
            Err(_) => false,
        },
{
    x * s.to_f64()
}

/// `candle_nn::ops::sigmoid` of each element, if there are any.
#[verifier::external_body]
pub(crate) fn sigmoid(x: &Tensor) -> (r: Result<Tensor, Error>)
    requires
        tensor_view(*x).fits(),
        tensor_view(*x).elems.len() > 0,
    ensures
        match r {
            Ok(o) => tensor_view(*x).dtype.sigmoidal() && is(
                o,
                tensor_view(*x).mapped(
                    |a: int| sigmoid_of(tensor_view(*x).device, tensor_view(*x).dtype, a),
                ),
            ) && packed(o),
            Err(_) => !tensor_view(*x).dtype.sigmoidal(),
        },
{
    candle_nn::ops::sigmoid(x)
}

/// `candle_nn::ops::silu`, of each element.
#[verifier::external_body]
pub(crate) fn silu(x: &Tensor) -> (r: Result<Tensor, Error>)
    requires
        tensor_view(*x).fits(),
    ensures
        match r {
            Ok(o) => is(
                o,
                tensor_view(*x).mapped(
                    |a: int| silu_of(tensor_view(*x).device, tensor_view(*x).dtype, a),
                ),
            ) && packed(o),
            Err(_) => !tensor_view(*x).dtype.floating(),
        },
{
    candle_nn::ops::silu(x)
}

/// `Device::synchronize` on the device of a tensor: waits for its work; what comes back is dropped.
#[verifier::external_body]
pub(crate) fn synchronize(x: &Tensor) {
    let _ = x.device().synchronize();
}

/// `QTensor::shape`: the dimensions.
#[verifier::external_body]
pub(crate) fn qtensor_dims(q: &QTensor) -> (r: Vec<usize>)
    ensures
        shape(r@) == qtensor_view(*q).dims,
{
    q.shape().dims().to_vec()
}

/// `QTensor::dtype`: the form in which the numbers are kept.
#[verifier::external_body]
pub(crate) fn form(q: &QTensor) -> (r: Form)
    ensures
        r == qtensor_form(*q),
{
    match q.dtype() {
        GgmlDType::F32 => Form::F32, GgmlDType::F16 => Form::F16, GgmlDType::BF16 => Form::BF16,
        GgmlDType::Q4_0 => Form::Q4_0, GgmlDType::Q4_1 => Form::Q4_1,
        GgmlDType::Q5_0 => Form::Q5_0, GgmlDType::Q5_1 => Form::Q5_1,
        GgmlDType::Q8_0 => Form::Q8_0, GgmlDType::Q8_1 => Form::Q8_1, GgmlDType::Q2K => Form::Q2K,
        GgmlDType::Q3K => Form::Q3K, GgmlDType::Q4K => Form::Q4K, GgmlDType::Q5K => Form::Q5K,
        GgmlDType::Q6K => Form::Q6K, GgmlDType::Q8K => Form::Q8K,
    }
}

/// `QTensor::storage_size_in_bytes`: the bytes that the storage takes.
#[verifier::external_body]
pub(crate) fn storage_bytes(q: &QTensor) -> (r: usize)
    ensures
        r == qtensor_bytes(*q),
{
    q.storage_size_in_bytes()
}

/// The storage of a quantized tensor takes as many bytes as its shape and form ask for.
pub open spec fn stored(dims: Seq<nat>, form: Form, bytes: nat) -> bool {
    bytes == product(dims) / form.block() * form.block_bytes()
}

/// The numbers of a quantized tensor can be had as single-precision numbers: all of them are there, and
/// not in the one form that cannot be converted back.
pub open spec fn loadable(q: QTensor) -> bool {
    &&& extent(qtensor_view(q).dims) <= MAX_ELEMENTS
    &&& qtensor_form(q) != Form::Q8_1
    &&& stored(qtensor_view(q).dims, qtensor_form(q), qtensor_bytes(q))
}

/// `QTensor::dequantize`, onto the device that holds it: single-precision numbers, packed, from the
/// start of fresh storage.
#[verifier::external_body]
pub(crate) fn dequantize(q: &QTensor) -> (r: Result<Tensor, Error>)
    requires
        loadable(*q),
    ensures
        match r {
            Ok(o) => is(o, qtensor_view(*q)) && tensor_packed(o) && tensor_offset(o) == 0
                && tensor_view(o).dtype == Dtype::F32,
            Err(_) => false,
        },
{
    q.dequantize(&q.device())
}

/// `QMatMul::from_qtensor`: a linear map made from a quantized tensor. How it keeps the numbers depends
/// on their form and on settings of the process, so only what it was made from is stated.
#[verifier::external_body]
pub(crate) fn from_qtensor(q: QTensor) -> (r: Result<QMatMul, Error>)
    requires
        loadable(q),
    ensures
        match r {
            Ok(m) => matmul_weight(m) == qtensor_view(q) && matmul_form(m) == qtensor_form(q)
                && matmul_bytes(m) == qtensor_bytes(q),
            Err(_) => false,
        },
{
    QMatMul::from_qtensor(q)
}

/// A linear map can be applied: its weight, if that is a matrix, has rows, and rows of the length that
/// its form asks for.
pub open spec fn multipliable(w: TensorView, form: Form) -> bool {
    w.dims.len() == 2 ==> w.dims[0] > 0 && (form.paired() ==> w.dims[1] % 64 == 0)
}

/// `QMatMul::forward` of packed rows, `[1, rows, length]`: each row multiplied by the transposed weight.
/// It succeeds if the weight is a matrix whose rows are as long, and the map takes numbers of that type,
/// as it always takes those of single precision; then the elements are a function of the map and the
/// rows.
#[verifier::external_body]
pub(crate) fn apply_matmul(m: &QMatMul, x: &Tensor) -> (r: Result<Tensor, Error>)
    requires
        tensor_view(*x).fits(),
        tensor_view(*x).dims.len() == 3,
        tensor_view(*x).dims[0] == 1,
        tensor_view(*x).elems.len() > 0,
        tensor_packed(*x),
        multipliable(matmul_weight(*m), matmul_form(*m)),
        stored(matmul_weight(*m).dims, matmul_form(*m), matmul_bytes(*m)),
        matmul_weight(*m).dims.len() == 2 ==> extent(
            seq![1, tensor_view(*x).dims[1], matmul_weight(*m).dims[0]],
        ) <= MAX_ELEMENTS,
    ensures
        match r {
            Ok(o) => {
                &&& matmul_weight(*m).dims.len() == 2
                &&& tensor_view(*x).dims[2] == matmul_weight(*m).dims[1]
                &&& tensor_view(*x).dtype == Dtype::F32 || matmul_accepts(
                    *m,
                    tensor_view(*x).dtype,
                )
                &&& is(
                    o,
                    (TensorView {
                        dims: seq![1, tensor_view(*x).dims[1], matmul_weight(*m).dims[0]],
                        dtype: tensor_view(*x).dtype,
                        device: tensor_view(*x).device,
                        elems: matmul_elems(*m, tensor_view(*x)),
                    }),
                )
                &&& tensor_packed(o)
            },
            Err(_) => !(matmul_weight(*m).dims.len() == 2 && tensor_view(*x).dims[2]
                == matmul_weight(*m).dims[1] && (tensor_view(*x).dtype == Dtype::F32
                || matmul_accepts(*m, tensor_view(*x).dtype))),
        },
{
    m.forward(x)
}

/// `Embedding::new`: an embedding with a table and a width.
#[verifier::external_body]
pub(crate) fn new_embedding(table: Tensor, width: usize) -> (r: Embedding)
    ensures
        embedding_table(r) == tensor_view(table),
        embedding_packed(r) == tensor_packed(table),
        embedding_offset(r) == tensor_offset(table),
        embedding_width(r) == width,
{
    Embedding::new(table, width)
}

/// The types that tokens can have.
pub open spec fn token_type(d: Dtype) -> bool {
    d == Dtype::U8 || d == Dtype::U32 || d == Dtype::I64
}

/// The greatest token of a type, which names no row.
pub open spec fn no_token(d: Dtype) -> int {
    if d == Dtype::U8 {
        u8::MAX as int
    } else if d == Dtype::U32 {
        u32::MAX as int
    } else {
        i64::MAX as int
    }
}

/// The row of a table that each token stands for: zeros for the token that names none.
pub open spec fn embedded(table: TensorView, width: nat, ids: TensorView) -> TensorView {
    TensorView {
        dims: ids.dims.push(width),
        dtype: table.dtype,
        device: table.device,
        elems: Seq::new(
            ids.elems.len() * width,
            |p: int|
                if ids.elems[p / (width as int)] == no_token(ids.dtype) {
                    0
                } else {
                    table.elems[ids.elems[p / (width as int)] * width + p % (width as int)]
                },
        ),
    }
}

/// Every token names a row of a table with `rows` rows, or none.
pub open spec fn tokens_known(ids: TensorView, rows: nat) -> bool {
    forall|i: int|
        0 <= i < ids.elems.len() ==> 0 <= #[trigger] ids.elems[i] < rows || ids.elems[i]
            == no_token(ids.dtype)
}

/// `Embedding::embeddings`: the table.
#[verifier::external_body]
pub(crate) fn table(e: &Embedding) -> (r: &Tensor)
    ensures
        tensor_view(*r) == embedding_table(*e),
{
    e.embeddings()
}

/// `Embedding::forward` of tokens, of which there are some, with a table whose rows have the width that
/// the embedding was made with: the row of each token, if the table is packed, the tokens have one of
/// their types and all are known.
#[verifier::external_body]
pub(crate) fn apply_embedding(e: &Embedding, ids: &Tensor) -> (r: Result<Tensor, Error>)
    requires
        tensor_view(*ids).fits(),
        tensor_view(*ids).elems.len() > 0,
        embedding_table(*e).fits(),
        embedding_table(*e).elems.len() > 0 || embedding_offset(*e) == 0,
        embedding_table(*e).dims.len() > 0,
        product(embedding_table(*e).dims.drop_first()) == embedding_width(*e),
        extent(tensor_view(*ids).dims.push(embedding_width(*e))) <= MAX_ELEMENTS,
    ensures
        match r {
            Ok(o) => {
                &&& embedding_packed(*e)
                &&& token_type(tensor_view(*ids).dtype)
                &&& tokens_known(tensor_view(*ids), embedding_table(*e).dims[0])
                &&& is(o, embedded(embedding_table(*e), embedding_width(*e), tensor_view(*ids)))
                &&& packed(o)
            },
            Err(_) => !(embedding_packed(*e) && token_type(tensor_view(*ids).dtype)
                && embedding_table(*e).dtype.floating() && tokens_known(
                tensor_view(*ids),
                embedding_table(*e).dims[0],
            )),
        },
{
    e.forward(ids)
}

} // verus!
