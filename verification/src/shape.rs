//! Row-major indexing: how the coordinates of an element and its place in memory order relate.
use vstd::prelude::*;
use vstd::arithmetic::div_mod::lemma_fundamental_div_mod;
use vstd::arithmetic::div_mod::lemma_fundamental_div_mod_converse;
use vstd::arithmetic::mul::lemma_mul_is_commutative;

verus! {

/// The most elements a tensor may have: their bytes, at most eight to an element, stay below
/// `isize::MAX`, which is as much as one allocation can hold. Dimensions of zero do not count here, since
/// the tensor library multiplies the others to find where in memory slices start.
pub const MAX_ELEMENTS: usize = usize::MAX / 16;

/// The number of elements of a tensor with these dimensions.
pub open spec fn product(dims: Seq<nat>) -> nat
    decreases dims.len(),
{
    if dims.len() == 0 {
        1
    } else {
        product(dims.drop_last()) * dims.last()
    }
}

/// The product of the dimensions that are not zero. It bounds the product of any run of them.
pub open spec fn extent(dims: Seq<nat>) -> nat
    decreases dims.len(),
{
    if dims.len() == 0 {
        1
    } else if dims.last() == 0 {
        extent(dims.drop_last())
    } else {
        extent(dims.drop_last()) * dims.last()
    }
}

/// The dimensions that a vector of machine integers writes down.
pub open spec fn shape(dims: Seq<usize>) -> Seq<nat> {
    dims.map_values(|d: usize| d as nat)
}

/// `at` names an element of a tensor with dimensions `dims`.
pub open spec fn in_range(dims: Seq<nat>, at: Seq<int>) -> bool {
    &&& at.len() == dims.len()
    &&& forall|i: int| 0 <= i < dims.len() ==> 0 <= #[trigger] at[i] < dims[i]
}

/// The place of the element `at` in row-major order.
pub open spec fn position(dims: Seq<nat>, at: Seq<int>) -> int
    decreases dims.len(),
{
    if dims.len() == 0 {
        0
    } else {
        position(dims.drop_last(), at.drop_last()) * dims.last() + at.last()
    }
}

/// The coordinates of the element at place `p` in row-major order.
pub open spec fn coordinates(dims: Seq<nat>, p: int) -> Seq<int>
    decreases dims.len(),
{
    if dims.len() == 0 {
        seq![]
    } else {
        coordinates(dims.drop_last(), p / (dims.last() as int)).push(p % (dims.last() as int))
    }
}

pub proof fn lemma_extent_positive(dims: Seq<nat>)
    ensures
        extent(dims) >= 1,
    decreases dims.len(),
{
    if dims.len() > 0 {
        lemma_extent_positive(dims.drop_last());
        if dims.last() > 0 {
            assert(extent(dims.drop_last()) * dims.last() >= 1) by (nonlinear_arith)
                requires
                    extent(dims.drop_last()) >= 1,
                    dims.last() >= 1,
            ;
        }
    }
}

/// No dimension exceeds the extent.
pub proof fn lemma_extent_bounds(dims: Seq<nat>, i: int)
    requires
        0 <= i < dims.len(),
    ensures
        dims[i] <= extent(dims),
    decreases dims.len(),
{
    let head = dims.drop_last();
    lemma_extent_positive(head);
    assert(extent(head) * dims.last() >= dims.last() && (dims.last() >= 1 ==> extent(head)
        * dims.last() >= extent(head))) by (nonlinear_arith)
        requires
            extent(head) >= 1,
    ;
    if i < dims.len() - 1 {
        lemma_extent_bounds(head, i);
        assert(head[i] == dims[i]);
    }
}

/// A shorter last dimension means fewer elements.
pub proof fn lemma_extent_shorter(a: nat, b: nat, c: nat, d: nat)
    requires
        c <= d,
    ensures
        extent(seq![a, b, c]) <= extent(seq![a, b, d]),
{
    let head = seq![a, b];
    assert(seq![a, b, c].drop_last() =~= head);
    assert(seq![a, b, d].drop_last() =~= head);
    lemma_extent_positive(head);
    assert(extent(head) * c <= extent(head) * d && (d >= 1 ==> extent(head) <= extent(head) * d))
        by (nonlinear_arith)
        requires
            c <= d,
            extent(head) >= 1,
    ;
}

pub proof fn lemma_product_within_extent(dims: Seq<nat>)
    ensures
        product(dims) <= extent(dims),
        product(dims) == 0 || product(dims) == extent(dims),
    decreases dims.len(),
{
    if dims.len() > 0 {
        lemma_product_within_extent(dims.drop_last());
        lemma_extent_positive(dims.drop_last());
        let p = product(dims.drop_last()) as int;
        let l = dims.last() as int;
        if l == 0 {
            assert(p * l == 0) by (nonlinear_arith)
                requires
                    l == 0,
            ;
        } else if p == 0 {
            assert(p * l == 0) by (nonlinear_arith)
                requires
                    p == 0,
            ;
            assert(extent(dims.drop_last()) * dims.last() >= 0) by (nonlinear_arith);
        }
    }
}

/// A shape has no elements exactly when one of its dimensions is zero.
pub proof fn lemma_product_zero(dims: Seq<nat>)
    ensures
        product(dims) == 0 <==> exists|i: int| 0 <= i < dims.len() && #[trigger] dims[i] == 0,
    decreases dims.len(),
{
    if dims.len() > 0 {
        let head = dims.drop_last();
        lemma_product_zero(head);
        let p = product(head) as int;
        let l = dims.last() as int;
        assert(p * l == 0 <==> p == 0 || l == 0) by (nonlinear_arith);
        if p == 0 {
            let i = choose|i: int| 0 <= i < head.len() && #[trigger] head[i] == 0;
            assert(dims[i] == 0);
        }
        if exists|i: int| 0 <= i < dims.len() && #[trigger] dims[i] == 0 {
            let i = choose|i: int| 0 <= i < dims.len() && #[trigger] dims[i] == 0;
            if i < head.len() {
                assert(head[i] == 0);
            }
        }
    }
}

pub proof fn lemma_position_bounds(dims: Seq<nat>, at: Seq<int>)
    requires
        in_range(dims, at),
    ensures
        0 <= position(dims, at) < product(dims),
    decreases dims.len(),
{
    if dims.len() > 0 {
        let d = dims.last() as int;
        let head = position(dims.drop_last(), at.drop_last());
        assert(in_range(dims.drop_last(), at.drop_last())) by {
            assert forall|i: int| 0 <= i < dims.drop_last().len() implies 0
                <= #[trigger] at.drop_last()[i] < dims.drop_last()[i] by {
                assert(at.drop_last()[i] == at[i]);
            }
        }
        lemma_position_bounds(dims.drop_last(), at.drop_last());
        assert(0 <= at[dims.len() - 1] < dims[dims.len() - 1]);
        assert(0 <= head * d + at.last() < product(dims.drop_last()) * d) by (nonlinear_arith)
            requires
                0 <= head < product(dims.drop_last()),
                0 <= at.last() < d,
        ;
    }
}

pub proof fn lemma_coordinates_of_position(dims: Seq<nat>, at: Seq<int>)
    requires
        in_range(dims, at),
    ensures
        coordinates(dims, position(dims, at)) == at,
    decreases dims.len(),
{
    if dims.len() > 0 {
        let d = dims.last() as int;
        let head = position(dims.drop_last(), at.drop_last());
        assert(in_range(dims.drop_last(), at.drop_last())) by {
            assert forall|i: int| 0 <= i < dims.drop_last().len() implies 0
                <= #[trigger] at.drop_last()[i] < dims.drop_last()[i] by {
                assert(at.drop_last()[i] == at[i]);
            }
        }
        lemma_coordinates_of_position(dims.drop_last(), at.drop_last());
        assert(0 <= at[dims.len() - 1] < dims[dims.len() - 1]);
        lemma_fundamental_div_mod_converse(head * d + at.last(), d, head, at.last());
        assert(coordinates(dims, position(dims, at)) =~= at);
    } else {
        assert(at =~= seq![]);
    }
}

pub proof fn lemma_position_of_coordinates(dims: Seq<nat>, p: int)
    requires
        0 <= p < product(dims),
    ensures
        in_range(dims, coordinates(dims, p)),
        position(dims, coordinates(dims, p)) == p,
    decreases dims.len(),
{
    if dims.len() > 0 {
        let d = dims.last() as int;
        let head = product(dims.drop_last()) as int;
        assert(d > 0) by (nonlinear_arith)
            requires
                0 <= p < head * d,
                head >= 0,
                d >= 0,
        ;
        assert(0 <= p / d < head) by (nonlinear_arith)
            requires
                0 <= p < head * d,
                d > 0,
        ;
        lemma_position_of_coordinates(dims.drop_last(), p / d);
        let inner = coordinates(dims.drop_last(), p / d);
        let at = coordinates(dims, p);
        assert(at.drop_last() =~= inner);
        lemma_fundamental_div_mod(p, d);
        lemma_mul_is_commutative(d, p / d);
        assert forall|i: int| 0 <= i < dims.len() implies 0 <= #[trigger] at[i] < dims[i] by {
            if i < dims.len() - 1 {
                assert(0 <= inner[i] < dims.drop_last()[i]);
            }
        }
    }
}

/// The place of an element, spelled out for the ranks in use.
pub proof fn lemma_position2(a: nat, b: nat, i: int, j: int)
    ensures
        position(seq![a, b], seq![i, j]) == i * b + j,
        product(seq![a, b]) == a * b,
{
    let dims = seq![a, b];
    let at = seq![i, j];
    reveal_with_fuel(position, 3);
    reveal_with_fuel(product, 3);
    assert(dims.drop_last() =~= seq![a]);
    assert(at.drop_last() =~= seq![i]);
    assert(dims.drop_last().drop_last() =~= Seq::<nat>::empty());
    assert(seq![a].drop_last() =~= Seq::<nat>::empty());
    assert(product(Seq::<nat>::empty()) == 1);
    assert(product(seq![a]) == 1 * a);
    assert(position(seq![a], seq![i]) == i);
}

pub proof fn lemma_position3(a: nat, b: nat, c: nat, i: int, j: int, k: int)
    ensures
        position(seq![a, b, c], seq![i, j, k]) == (i * b + j) * c + k,
        product(seq![a, b, c]) == a * b * c,
{
    lemma_position2(a, b, i, j);
    assert(seq![a, b, c].drop_last() =~= seq![a, b]);
    assert(seq![i, j, k].drop_last() =~= seq![i, j]);
}

pub proof fn lemma_position4(a: nat, b: nat, c: nat, d: nat, i: int, j: int, k: int, l: int)
    ensures
        position(seq![a, b, c, d], seq![i, j, k, l]) == ((i * b + j) * c + k) * d + l,
        product(seq![a, b, c, d]) == a * b * c * d,
{
    lemma_position3(a, b, c, i, j, k);
    assert(seq![a, b, c, d].drop_last() =~= seq![a, b, c]);
    assert(seq![i, j, k, l].drop_last() =~= seq![i, j, k]);
}

pub proof fn lemma_position5(
    a: nat,
    b: nat,
    c: nat,
    d: nat,
    e: nat,
    i: int,
    j: int,
    k: int,
    l: int,
    m: int,
)
    ensures
        position(seq![a, b, c, d, e], seq![i, j, k, l, m]) == (((i * b + j) * c + k) * d + l) * e
            + m,
        product(seq![a, b, c, d, e]) == a * b * c * d * e,
{
    lemma_position4(a, b, c, d, i, j, k, l);
    assert(seq![a, b, c, d, e].drop_last() =~= seq![a, b, c, d]);
    assert(seq![i, j, k, l, m].drop_last() =~= seq![i, j, k, l]);
}

/// As many elements of eight bytes are allowed as fit in one allocation, to within a factor of two.
pub proof fn law_limit()
    ensures
        8 * MAX_ELEMENTS <= isize::MAX,
        8 * (MAX_ELEMENTS + 1) > isize::MAX,
{
}

} // verus!
