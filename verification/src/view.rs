//! What a tensor holds, and what the tensor operations make of it.
use vstd::prelude::*;
use crate::shape::{coordinates, extent, in_range, position, product, MAX_ELEMENTS};
use crate::shape::{lemma_coordinates_of_position, lemma_position_bounds};

verus! {

/// The element types of a tensor.
#[derive(Clone, Copy, Debug, PartialEq, Eq, Structural)]
pub enum Dtype {
    U8,
    U32,
    I16,
    I32,
    I64,
    BF16,
    F16,
    F32,
    F64,
    F8E4M3,
    F6E2M3,
    F6E3M2,
    F4,
    F8E8M0,
}

impl Dtype {
    /// One of the floating-point types that the tensor library computes with.
    pub open spec fn floating(self) -> bool {
        self.sigmoidal() || self == Dtype::F8E4M3
    }

    /// One of those of which it computes the sigmoid.
    pub open spec fn sigmoidal(self) -> bool {
        self == Dtype::BF16 || self == Dtype::F16 || self == Dtype::F32 || self == Dtype::F64
    }
}

/// A tensor as a value: its dimensions, its element type, the device that holds it and computes
/// on it, and its elements in row-major order. An element is an integer that stands for a number:
/// for the integer types the number itself, for the floating-point types a code of it, in which
/// zero is 0 and all not-a-numbers share one code.
#[verifier::ext_equal]
pub struct TensorView {
    pub dims: Seq<nat>,
    pub dtype: Dtype,
    pub device: int,
    pub elems: Seq<int>,
}

/// The dimension at place `i` of `n` when `dims` is aligned with the last of them.
pub open spec fn aligned(dims: Seq<nat>, n: nat, i: int) -> nat {
    if i < n - dims.len() {
        1
    } else {
        dims[i - (n - dims.len())]
    }
}

/// The number of dimensions that `a` and `b` are broadcast to.
pub open spec fn broadcast_rank(a: Seq<nat>, b: Seq<nat>) -> nat {
    if a.len() < b.len() {
        b.len()
    } else {
        a.len()
    }
}

/// Two shapes can be broadcast when, aligned at the end, dimensions are equal or one is 1.
pub open spec fn broadcastable(a: Seq<nat>, b: Seq<nat>) -> bool {
    let n = broadcast_rank(a, b);
    forall|i: int|
        0 <= i < n ==> (#[trigger] aligned(a, n, i) == aligned(b, n, i) || aligned(a, n, i) == 1
            || aligned(b, n, i) == 1)
}

/// The shape that `a` and `b` are broadcast to.
pub open spec fn broadcast_dims(a: Seq<nat>, b: Seq<nat>) -> Seq<nat> {
    let n = broadcast_rank(a, b);
    Seq::new(
        n,
        |i: int|
            if aligned(a, n, i) == 1 {
                aligned(b, n, i)
            } else {
                aligned(a, n, i)
            },
    )
}

/// The element of a tensor of shape `dims` that stands at `at` after broadcasting.
pub open spec fn broadcast_source(dims: Seq<nat>, at: Seq<int>) -> Seq<int> {
    Seq::new(
        dims.len(),
        |i: int|
            if dims[i] == 1 {
                0
            } else {
                at[at.len() - dims.len() + i]
            },
    )
}

/// `s` with its entries `a` and `b` exchanged.
pub open spec fn swapped<T>(s: Seq<T>, a: int, b: int) -> Seq<T> {
    s.update(a, s[b]).update(b, s[a])
}

impl TensorView {
    /// The number of elements is what the dimensions say, and they fit in one allocation.
    pub open spec fn fits(self) -> bool {
        &&& self.elems.len() == product(self.dims)
        &&& extent(self.dims) <= MAX_ELEMENTS
    }

    /// The element with the given coordinates.
    pub open spec fn at(self, at: Seq<int>) -> int {
        self.elems[position(self.dims, at)]
    }

    pub open spec fn at2(self, i: int, j: int) -> int {
        self.at(seq![i, j])
    }

    pub open spec fn at3(self, i: int, j: int, k: int) -> int {
        self.at(seq![i, j, k])
    }

    pub open spec fn at4(self, i: int, j: int, k: int, l: int) -> int {
        self.at(seq![i, j, k, l])
    }

    /// The tensor of shape `dims`, on the device and with the element type of `self`, whose element
    /// at each place is given by `f`.
    pub open spec fn filled(self, dims: Seq<nat>, f: spec_fn(Seq<int>) -> int) -> TensorView {
        TensorView {
            dims,
            dtype: self.dtype,
            device: self.device,
            elems: Seq::new(product(dims), |p: int| f(coordinates(dims, p))),
        }
    }

    /// Each element replaced by `f` of it.
    pub open spec fn mapped(self, f: spec_fn(int) -> int) -> TensorView {
        TensorView { elems: self.elems.map_values(f), ..self }
    }

    /// The same elements under other dimensions.
    pub open spec fn reshaped(self, dims: Seq<nat>) -> TensorView {
        TensorView { dims, ..self }
    }

    /// A dimension of size one inserted before dimension `d`.
    pub open spec fn unsqueezed(self, d: int) -> TensorView {
        TensorView { dims: self.dims.insert(d, 1), ..self }
    }

    /// The slice `start .. start + len` along dimension `d`.
    pub open spec fn narrowed(self, d: int, start: int, len: nat) -> TensorView {
        self.filled(
            self.dims.update(d, len),
            |at: Seq<int>| self.at(at.update(d, at[d] + start)),
        )
    }

    /// Dimensions `a` and `b` exchanged.
    pub open spec fn transposed(self, a: int, b: int) -> TensorView {
        self.filled(swapped(self.dims, a, b), |at: Seq<int>| self.at(swapped(at, a, b)))
    }

    /// `reps[i]` copies side by side along each dimension `i`.
    pub open spec fn repeated(self, reps: Seq<nat>) -> TensorView {
        self.filled(
            Seq::new(self.dims.len(), |i: int| self.dims[i] * reps[i]),
            |at: Seq<int>|
                self.at(Seq::new(self.dims.len(), |i: int| at[i] % (self.dims[i] as int))),
        )
    }

    /// `other` placed behind `self` along dimension `d`, on the device of `self` if that has elements.
    pub open spec fn joined(self, other: TensorView, d: int) -> TensorView {
        TensorView {
            device: self.joined_device(other),
            ..self.filled(
                self.dims.update(d, self.dims[d] + other.dims[d]),
                |at: Seq<int>|
                    if at[d] < self.dims[d] {
                        self.at(at)
                    } else {
                        other.at(at.update(d, at[d] - self.dims[d]))
                    },
            )
        }
    }

    /// The device that holds `other` placed behind `self`.
    pub open spec fn joined_device(self, other: TensorView) -> int {
        if self.elems.len() == 0 {
            other.device
        } else {
            self.device
        }
    }

    /// The shapes and types of two tensors allow to place one behind the other along `d`.
    pub open spec fn joinable(self, other: TensorView, d: int) -> bool {
        &&& 0 <= d < self.dims.len()
        &&& self.dims.len() == other.dims.len()
        &&& self.dims.update(d, 0) == other.dims.update(d, 0)
        &&& self.dtype == other.dtype
    }

    /// `f` of the elements of `self` and `other` at the same place after broadcasting.
    pub open spec fn zipped(self, other: TensorView, f: spec_fn(int, int) -> int) -> TensorView {
        self.filled(
            broadcast_dims(self.dims, other.dims),
            |at: Seq<int>|
                f(
                    self.at(broadcast_source(self.dims, at)),
                    other.at(broadcast_source(other.dims, at)),
                ),
        )
    }

    /// The elements that share all coordinates but the last, for the `p`-th choice of those.
    pub open spec fn row(self, p: int) -> Seq<int> {
        Seq::new(self.dims.last(), |j: int| self.elems[p * self.dims.last() + j])
    }

    /// `f` of each row, under dimensions `dims`.
    pub open spec fn reduced(self, dims: Seq<nat>, f: spec_fn(Seq<int>) -> int) -> TensorView {
        TensorView {
            dims,
            dtype: self.dtype,
            device: self.device,
            elems: Seq::new(product(dims), |p: int| f(self.row(p))),
        }
    }
}

/// The tensors `parts`, all of the shape of the first, as the slices of a new dimension `d`.
pub open spec fn stacked(parts: Seq<TensorView>, d: int) -> TensorView {
    parts[0].filled(
        parts[0].dims.insert(d, parts.len()),
        |at: Seq<int>| parts[at[d]].at(at.remove(d)),
    )
}

pub proof fn lemma_filled_at(
    like: TensorView,
    dims: Seq<nat>,
    f: spec_fn(Seq<int>) -> int,
    at: Seq<int>,
)
    requires
        in_range(dims, at),
    ensures
        like.filled(dims, f).at(at) == f(at),
{
    lemma_position_bounds(dims, at);
    lemma_coordinates_of_position(dims, at);
}

/// The floating-point types that are computed with, and those of which the sigmoid is: all others are
/// refused.
pub proof fn law_floating_types(d: Dtype)
    ensures
        d.floating() == match d {
            Dtype::BF16 | Dtype::F16 | Dtype::F32 | Dtype::F64 | Dtype::F8E4M3 => true,
            _ => false,
        },
        d.sigmoidal() == match d {
            Dtype::BF16 | Dtype::F16 | Dtype::F32 | Dtype::F64 => true,
            _ => false,
        },
{
}

/// A tensor fits if it has as many elements as its dimensions say, and they keep to the limit.
pub proof fn law_fits(v: TensorView)
    ensures
        v.fits() == (v.elems.len() == product(v.dims) && extent(v.dims) <= MAX_ELEMENTS),
{
}

} // verus!
