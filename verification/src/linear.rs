//! Linear maps with quantized weights.
use vstd::prelude::*;
use candle_core::quantized::{QMatMul, QTensor};
use candle_core::Tensor;
use crate::candle;
use crate::candle::{
    is, loadable, matmul_accepts, matmul_bytes, matmul_elems, matmul_form, matmul_weight, multipliable,
    packed, qtensor_bytes, qtensor_form, qtensor_view, stored, tensor_offset, tensor_packed, tensor_view, Form,
};
use crate::error::ModelError;
use crate::ops;
use crate::ops::within_limit;
use crate::shape::{
    extent, lemma_extent_positive, lemma_position3, lemma_product_within_extent, lemma_product_zero,
    product, shape, MAX_ELEMENTS,
};
use crate::view::{Dtype, TensorView};

verus! {

/// Whether the numbers of a quantized tensor can be had: it has no more elements than one allocation
/// can hold, is not kept in the form that cannot be converted back, and has all of them in its storage.
pub fn is_dequantizable(q: &QTensor) -> (r: bool)
    ensures
        r == loadable(*q),
{
    let dims = candle::qtensor_dims(q);
    let form = candle::form(q);
    within_limit(&dims) && !matches!(form, Form::Q8_1) && candle::storage_bytes(q) == ops::bytes_of(
        &dims,
        form,
    )
}

/// The numbers of a quantized tensor.
pub(crate) fn dequantize(q: &QTensor) -> (r: Result<Tensor, ModelError>)
    requires
        loadable(*q),
    ensures
        match r {
            Ok(o) => is(o, qtensor_view(*q)) && tensor_packed(o) && tensor_offset(o) == 0
                && tensor_view(o).dtype == Dtype::F32,
            Err(_) => false,
        },
{
    match candle::dequantize(q) {
        Ok(t) => Ok(t),
        Err(e) => Err(ModelError::Tensor(e)),
    }
}

/// A weight: as a map, or, if its numbers cannot be had, as it was.
enum Held {
    Product(QMatMul),
    Kept(QTensor),
}

/// A linear map `x -> x W^T` with a quantized weight `W`.
pub struct Linear {
    held: Held,
    dims: Vec<usize>,
    form: Form,
}

/// The shape of the result of a linear map with weight `w`.
pub open spec fn mapped_dims(w: TensorView, x: TensorView) -> Seq<nat> {
    x.dims.update(x.dims.len() - 1, w.dims[0])
}

/// The rows of `x`, one after the other.
pub open spec fn lines_of(x: TensorView) -> TensorView {
    x.reshaped(seq![1, product(x.dims.drop_last()), x.dims.last()])
}

pub proof fn lemma_mapped3(w: TensorView, x: TensorView)
    requires
        x.dims.len() == 3,
    ensures
        mapped_dims(w, x) == seq![x.dims[0], x.dims[1], w.dims[0]],
{
    assert(mapped_dims(w, x) =~= seq![x.dims[0], x.dims[1], w.dims[0]]);
}

/// The rows of a tensor that has elements fit in memory, one after the other.
proof fn lemma_lines(x: TensorView, n: nat)
    requires
        x.fits(),
        x.dims.len() >= 1,
        x.elems.len() > 0,
    ensures
        lines_of(x).fits(),
        product(x.dims.update(x.dims.len() - 1, n)) == product(seq![1, product(x.dims.drop_last()), n]),
        extent(x.dims.update(x.dims.len() - 1, n)) == extent(seq![1, product(x.dims.drop_last()), n]),
{
    let rows = product(x.dims.drop_last());
    let k = x.dims.last();
    let out = x.dims.update(x.dims.len() - 1, n);
    assert(out.drop_last() =~= x.dims.drop_last());
    lemma_position3(1, rows, k, 0, 0, 0);
    lemma_position3(1, rows, n, 0, 0, 0);
    assert(1 * rows * k == rows * k && 1 * rows * n == rows * n) by (nonlinear_arith);
    lemma_product_within_extent(x.dims);
    lemma_product_within_extent(seq![1, rows, k]);
    assert(rows > 0) by (nonlinear_arith)
        requires
            rows * k > 0,
            rows >= 0,
    ;
    lemma_product_within_extent(x.dims.drop_last());
    lemma_extent_positive(x.dims.drop_last());
    reveal_with_fuel(extent, 4);
    assert(seq![1, rows, n].drop_last() =~= seq![1, rows]);
    assert(seq![1, rows].drop_last() =~= seq![1nat]);
    assert(seq![1nat].drop_last() =~= Seq::<nat>::empty());
    assert(extent(seq![1, rows]) == rows);
}

impl Linear {
    /// The weight.
    pub closed spec fn weight(self) -> TensorView {
        match self.held {
            Held::Product(m) => matmul_weight(m),
            Held::Kept(q) => qtensor_view(q),
        }
    }

    /// The weight is kept as plain numbers.
    pub closed spec fn plain(self) -> bool {
        self.form.plain()
    }

    /// The map is what it was made from.
    pub closed spec fn sound(self) -> bool {
        &&& shape(self.dims@) == self.weight().dims
        &&& match self.held {
            Held::Product(m) => matmul_form(m) == self.form && stored(
                matmul_weight(m).dims,
                matmul_form(m),
                matmul_bytes(m),
            ),
            Held::Kept(_) => true,
        }
    }

    /// The map is sound, and can be applied.
    pub closed spec fn wf(self) -> bool {
        self.sound() && self.held is Product && multipliable(self.weight(), self.form)
    }

    /// The map has the tensor as its weight, and can be applied if the numbers of that can be had and it
    /// has a shape that goes with its form.
    pub open spec fn made_from(self, q: QTensor) -> bool {
        &&& self.sound()
        &&& self.weight() == qtensor_view(q)
        &&& self.plain() == qtensor_form(q).plain()
        &&& self.wf() == (loadable(q) && multipliable(qtensor_view(q), qtensor_form(q)))
    }

    /// Whether a sound map can be applied.
    pub fn is_runnable(&self) -> (r: bool)
        requires
            self.sound(),
        ensures
            r == self.wf(),
    {
        proof {
            assert(self.dims.len() == 2 ==> self.weight().dims[0] == self.dims[0] as nat
                && self.weight().dims[1] == self.dims[1] as nat);
        }
        let paired = matches!(self.form, Form::Q4_1 | Form::Q5_0 | Form::Q5_1);
        match self.held {
            Held::Product(_) => self.dims.len() != 2 || (self.dims[0] > 0 && (!paired || self.dims[1]
                % 64 == 0)),
            Held::Kept(_) => false,
        }
    }

    /// A map that can be applied is sound, and its weight, if that is a matrix, has rows.
    pub proof fn lemma_rows(self)
        requires
            self.wf(),
        ensures
            self.sound(),
            self.weight().dims.len() == 2 ==> self.weight().dims[0] > 0,
    {
    }

    /// What the map makes of rows, one after the other.
    pub closed spec fn mapped_elems(self, x: TensorView) -> Seq<int> {
        match self.held {
            Held::Product(m) => matmul_elems(m, x),
            Held::Kept(_) => seq![],
        }
    }

    /// The result of the map.
    pub open spec fn applied(self, x: TensorView) -> TensorView {
        TensorView {
            dims: mapped_dims(self.weight(), x),
            dtype: x.dtype,
            device: x.device,
            elems: if x.elems.len() == 0 {
                Seq::new(product(mapped_dims(self.weight(), x)), |p: int| 0)
            } else {
                self.mapped_elems(lines_of(x))
            },
        }
    }

    /// The map takes numbers of type `dtype`. It always takes those of single precision; which others it
    /// takes depends on how the tensor library keeps the weight.
    pub closed spec fn accepts(self, dtype: Dtype) -> bool {
        dtype == Dtype::F32 || match self.held {
            Held::Product(m) => matmul_accepts(m, dtype),
            Held::Kept(_) => false,
        }
    }

    /// Rows of single-precision numbers are accepted, whatever the weight.
    pub proof fn law_accepts_single(self)
        ensures
            self.accepts(Dtype::F32),
    {
    }

    /// The inputs on which the map works.
    pub open spec fn ready(self, x: Tensor) -> bool {
        self.takes(tensor_view(x)) && (self.plain() || packed(x))
    }

    /// What a packed tensor has to hold for the map to work.
    pub open spec fn takes(self, x: TensorView) -> bool {
        &&& self.meets(x)
        &&& x.dtype.floating()
        &&& x.elems.len() > 0 ==> self.accepts(x.dtype)
        &&& extent(mapped_dims(self.weight(), x)) <= MAX_ELEMENTS
    }

    /// The weight is a matrix whose rows are as long as those of `x`.
    pub open spec fn meets(self, x: TensorView) -> bool {
        &&& self.weight().dims.len() == 2
        &&& x.dims.len() >= 2
        &&& x.dims.last() == self.weight().dims[1]
    }

    /// `x W^T`, row by row. A weight in blocks takes packed rows only.
    pub fn forward(&self, x: &Tensor) -> (r: Result<Tensor, ModelError>)
        requires
            self.wf(),
            tensor_view(*x).fits(),
        ensures
            match r {
                Ok(o) => {
                    &&& self.ready(*x)
                    &&& is(o, self.applied(tensor_view(*x)))
                    &&& tensor_packed(o)
                },
                Err(_) => !self.ready(*x),
            },
    {
        let ghost v = tensor_view(*x);
        let ghost w = self.weight();
        let d = candle::dims(x);
        if self.dims.len() != 2 || d.len() < 2 {
            return Err(ModelError::Rank);
        }
        let last: usize = d.len() - 1;
        let length: usize = d[last];
        proof {
            assert(w.dims[0] == self.dims[0] as nat);
            assert(w.dims[1] == self.dims[1] as nat);
            assert(v.dims.last() == length as nat);
        }
        if length != self.dims[1] {
            return Err(ModelError::Shapes);
        }
        let mut out = candle::dims(x);
        out.set(last, self.dims[0]);
        proof {
            assert(shape(out@) =~= mapped_dims(w, v));
        }
        if !within_limit(&out) {
            return Err(ModelError::TooLarge);
        }
        if !ops::is_floating(candle::dtype(x)) {
            return Err(ModelError::NotFloating);
        }
        let n = ops::count(x);
        if n == 0 {
            let o = ops::zeros(out, x)?;
            proof {
                assert(tensor_view(o) =~= self.applied(v));
            }
            return Ok(o);
        }
        if !matches!(self.form, Form::F32 | Form::F16 | Form::BF16) && !candle::is_packed(x) {
            return Err(ModelError::NotPacked);
        }
        proof {
            lemma_lines(v, self.dims[0] as nat);
            lemma_product_zero(v.dims);
            assert(v.dims[v.dims.len() - 1] != 0);
            let rows = product(v.dims.drop_last()) as int;
            assert((rows * length) / (length as int) == rows) by (nonlinear_arith)
                requires
                    length > 0,
            ;
        }
        let rows: usize = n / length;
        let flat = vec![1usize, rows, length];
        proof {
            assert(shape(flat@) =~= lines_of(v).dims);
        }
        let lines = ops::reshape(x, flat)?;
        let mapped = match &self.held {
            Held::Product(m) => match candle::apply_matmul(m, &lines) {
                Ok(t) => t,
                Err(e) => {
                    return Err(ModelError::Tensor(e));
                },
            },
            Held::Kept(_) => {
                return Err(ModelError::Rank);
            },
        };
        let o = ops::reshape(&mapped, out)?;
        proof {
            assert(tensor_view(o) =~= self.applied(v));
        }
        Ok(o)
    }
}

/// The linear map whose weight is a quantized tensor.
pub fn qmethod(tensor: QTensor) -> (r: Result<Linear, ModelError>)
    ensures
        match r {
            Ok(m) => m.made_from(tensor),
            Err(_) => false,
        },
{
    let dims = candle::qtensor_dims(&tensor);
    let form = candle::form(&tensor);
    if !is_dequantizable(&tensor) {
        return Ok(Linear { held: Held::Kept(tensor), dims, form });
    }
    match candle::from_qtensor(tensor) {
        Ok(m) => Ok(Linear { held: Held::Product(m), dims, form }),
        Err(e) => Err(ModelError::Tensor(e)),
    }
}

/// What a call gives: the rows one after the other, multiplied by the transposed weight as one matrix, in the
/// shape of the input with rows of the weight's height.
proof fn law_linear_values(l: Linear, x: Tensor, r: Result<Tensor, ModelError>)
    requires
        l.wf(),
        tensor_view(x).fits(),
        call_ensures(Linear::forward, (&l, &x), r),
        l.held is Product,
        matmul_weight(l.held->Product_0).dims.len() == 2,
        tensor_view(x).dims.len() >= 2,
        tensor_view(x).dims.last() == matmul_weight(l.held->Product_0).dims[1],
    ensures
        call_requires(Linear::forward, (&l, &x)),
        l.weight() == matmul_weight(l.held->Product_0),
        tensor_view(x).dtype == Dtype::F32 && tensor_packed(x) && extent(
            tensor_view(x).dims.drop_last().push(matmul_weight(l.held->Product_0).dims[0]),
        ) <= MAX_ELEMENTS ==> r is Ok,
        r is Ok ==> {
            let (v, o, w) = (
                tensor_view(x),
                tensor_view(r->Ok_0),
                matmul_weight(l.held->Product_0),
            );
            &&& o.fits()
            &&& tensor_packed(r->Ok_0)
            &&& o.dims == v.dims.drop_last().push(w.dims[0])
            &&& o.dtype == v.dtype
            &&& o.device == v.device
            &&& v.elems.len() > 0 ==> o.elems == matmul_elems(
                l.held->Product_0,
                (TensorView { dims: seq![1, v.elems.len() / w.dims[1], w.dims[1]], ..v }),
            )
            &&& v.elems.len() == 0 ==> forall|p: int|
                0 <= p < o.elems.len() ==> #[trigger] o.elems[p] == 0
            &&& o == l.applied(v)
        },
{
    let v = tensor_view(x);
    let w = l.weight();
    assert(mapped_dims(w, v) =~= v.dims.drop_last().push(w.dims[0]));
    if v.elems.len() > 0 {
        let rows = product(v.dims.drop_last());
        let k = w.dims[1];
        lemma_product_zero(v.dims);
        assert(v.dims[v.dims.len() - 1] != 0);
        assert((rows * k) / k == rows) by (nonlinear_arith)
            requires
                k > 0,
        ;
        assert(lines_of(v).dims =~= seq![1, v.elems.len() / k, k]);
    }
}

/// A linear map works row by row in order: how the rows are laid out in the leading dimensions does not
/// matter for the numbers that come out.
pub proof fn law_linear_by_rows(
    l: Linear,
    x: Tensor,
    y: Tensor,
    r: Tensor,
    s: Tensor,
)
    requires
        tensor_view(x).fits(),
        tensor_view(y).fits(),
        tensor_view(x).elems == tensor_view(y).elems,
        tensor_view(x).elems.len() > 0,
        tensor_view(x).dims.last() == tensor_view(y).dims.last(),
        tensor_view(x).dtype == tensor_view(y).dtype,
        tensor_view(x).device == tensor_view(y).device,
        call_ensures(Linear::forward, (&l, &x), Ok(r)),
        call_ensures(Linear::forward, (&l, &y), Ok(s)),
    ensures
        tensor_view(r).elems == tensor_view(s).elems,
        tensor_view(r).dims == tensor_view(x).dims.drop_last().push(l.weight().dims[0]),
        tensor_view(r).dims.last() == tensor_view(s).dims.last(),
{
    let (v, w) = (tensor_view(x), tensor_view(y));
    let k = v.dims.last();
    lemma_product_zero(v.dims);
    assert(v.dims[v.dims.len() - 1] != 0);
    let (a, b) = (product(v.dims.drop_last()), product(w.dims.drop_last()));
    assert(a == b) by (nonlinear_arith)
        requires
            a * k == b * k,
            k > 0,
    ;
    assert(lines_of(v) =~= lines_of(w));
    assert(mapped_dims(l.weight(), v) =~= v.dims.drop_last().push(l.weight().dims[0]));
    assert(mapped_dims(l.weight(), w) =~= w.dims.drop_last().push(l.weight().dims[0]));
}

/// A linear map made from a tensor has that tensor as its weight.
proof fn law_weight_held(q: QTensor, r: Result<Linear, ModelError>)
    requires
        call_ensures(qmethod, (q,), r),
    ensures
        call_requires(qmethod, (q,)),
        r is Ok,
        r->Ok_0.weight() == qtensor_view(q),
        r->Ok_0.held is Product ==> matmul_weight(r->Ok_0.held->Product_0) == qtensor_view(q),
        shape(r->Ok_0.dims@) == qtensor_view(q).dims,
{
}

/// The numbers of a quantized tensor can be had if they keep within memory, are not in the one form that
/// cannot be converted back, and its storage has the bytes of all its blocks; a map made from it can be
/// applied if besides, as a matrix, it has rows, in three forms of an even number of blocks.
pub proof fn law_runnable_maps(q: QTensor, l: Linear, whole: bool, runs: bool)
    requires
        call_ensures(is_dequantizable, (&q,), whole),
        call_ensures(qmethod, (q,), Ok(l)),
        call_ensures(Linear::is_runnable, (&l,), runs),
    ensures
        call_requires(Linear::is_runnable, (&l,)),
        ({
            let (dims, form) = (qtensor_view(q).dims, qtensor_form(q));
            &&& whole == (extent(dims) <= MAX_ELEMENTS && form != Form::Q8_1 && qtensor_bytes(q)
                == product(dims) / form.block() * form.block_bytes())
            &&& runs == (whole && (dims.len() == 2 ==> dims[0] > 0 && (form == Form::Q4_1 || form
                == Form::Q5_0 || form == Form::Q5_1 ==> dims[1] % 64 == 0)))
        }),
{
}

} // verus!
