//! Tensor shapes: ordered sequences of positive dimensions.
use vstd::prelude::*;

verus! {

/// A shape is valid when it has at least one dimension and none is below one.
pub open spec fn shape_valid(s: Seq<i64>) -> bool {
    &&& s.len() >= 1
    &&& forall|i: int| 0 <= i < s.len() ==> s[i] >= 1
}

/// The number of elements of a tensor of shape `s`: the product of its
/// dimensions.
pub open spec fn shape_numel(s: Seq<i64>) -> int
    decreases s.len(),
{
    if s.len() == 0 {
        1
    } else {
        shape_numel(s.drop_last()) * s.last()
    }
}

/// `usize` can count the elements of `s`, where `s` is a valid shape.
pub open spec fn shape_fits(s: Seq<i64>) -> bool {
    shape_valid(s) ==> shape_numel(s) <= usize::MAX
}

/// The fan-in of a parameter of shape `s`: the product of all dimensions but
/// the first.
pub open spec fn shape_fan_in(s: Seq<i64>) -> int {
    shape_numel(s.subrange(1, s.len() as int))
}

/// A prefix or the whole of a valid shape has at least one element, and no
/// more than a longer prefix has.
pub proof fn lemma_numel_prefix(s: Seq<i64>, i: int, j: int)
    requires
        forall|k: int| 0 <= k < s.len() ==> s[k] >= 1,
        0 <= i <= j <= s.len(),
    ensures
        1 <= shape_numel(s.take(i)) <= shape_numel(s.take(j)),
    decreases j,
{
    if j == 0 {
        assert(s.take(0).len() == 0);
    } else if i == j {
        lemma_numel_prefix(s, i - 1, j - 1);
        assert(s.take(j).drop_last() =~= s.take(j - 1));
        assert(shape_numel(s.take(j - 1)) * s[j - 1] >= 1) by (nonlinear_arith)
            requires
                shape_numel(s.take(j - 1)) >= 1,
                s[j - 1] >= 1,
        ;
    } else {
        lemma_numel_prefix(s, i, j - 1);
        assert(s.take(j).drop_last() =~= s.take(j - 1));
        assert(shape_numel(s.take(j - 1)) * s[j - 1] >= shape_numel(s.take(j - 1)))
            by (nonlinear_arith)
            requires
                shape_numel(s.take(j - 1)) >= 1,
                s[j - 1] >= 1,
        ;
    }
}

/// In a valid shape every dimension, the product of the leading dimensions
/// and the product of the trailing ones lie between one and the element
/// count, and the element count is the leading product times the last
/// dimension.
pub proof fn lemma_numel_parts(s: Seq<i64>)
    requires
        shape_valid(s),
    ensures
        1 <= s.last() <= shape_numel(s),
        1 <= s[0] <= shape_numel(s),
        1 <= shape_numel(s.drop_last()) <= shape_numel(s),
        1 <= shape_fan_in(s) <= shape_numel(s),
        shape_numel(s) == shape_numel(s.drop_last()) * s.last(),
        shape_numel(s) == s[0] * shape_fan_in(s),
{
    let n: int = s.len() as int;
    assert(s.take(n) =~= s);
    assert(s.take(n - 1) =~= s.drop_last());
    lemma_numel_prefix(s, n - 1, n);
    assert(shape_numel(s.drop_last()) * s.last() >= s.last()) by (nonlinear_arith)
        requires
            shape_numel(s.drop_last()) >= 1,
            s.last() >= 1,
    ;
    lemma_numel_split(s, 1);
    assert(s.take(1).drop_last() =~= Seq::<i64>::empty());
    assert(shape_numel(s.take(1)) == s[0]) by {
        assert(shape_numel(s.take(1).drop_last()) == 1);
    }
    let rest: Seq<i64> = s.subrange(1, n);
    assert(rest.take(rest.len() as int) =~= rest);
    lemma_numel_prefix(rest, 0, rest.len() as int);
    assert(s[0] * shape_fan_in(s) >= s[0] && s[0] * shape_fan_in(s) >= shape_fan_in(s))
        by (nonlinear_arith)
        requires
            shape_fan_in(s) >= 1,
            s[0] >= 1,
    ;
}

/// The element count of a shape is the product of the counts of its two
/// parts, wherever it is cut.
pub proof fn lemma_numel_split(s: Seq<i64>, i: int)
    requires
        0 <= i <= s.len(),
    ensures
        shape_numel(s) == shape_numel(s.take(i)) * shape_numel(s.subrange(i, s.len() as int)),
    decreases s.len(),
{
    let n: int = s.len() as int;
    if i == n {
        assert(s.take(n) =~= s);
        assert(s.subrange(n, n).len() == 0);
    } else {
        let front: Seq<i64> = s.drop_last();
        lemma_numel_split(front, i);
        assert(front.take(i) =~= s.take(i));
        assert(s.subrange(i, n).drop_last() =~= front.subrange(i, n - 1));
        assert(s.subrange(i, n).last() == s.last());
        let a: int = shape_numel(s.take(i));
        let b: int = shape_numel(front.subrange(i, n - 1));
        let c: int = s.last() as int;
        assert((a * b) * c == a * (b * c)) by (nonlinear_arith);
    }
}

/// A shape of one dimension has that many elements; a shape of two
/// dimensions has their product.
pub proof fn lemma_numel_small(s: Seq<i64>)
    requires
        1 <= s.len() <= 2,
    ensures
        s.len() == 1 ==> shape_numel(s) == s[0],
        s.len() == 2 ==> shape_numel(s) == s[0] * s[1] && shape_numel(s.drop_last()) == s[0],
{
    if s.len() == 1 {
        assert(shape_numel(s.drop_last()) == 1);
    } else {
        assert(s.drop_last().drop_last().len() == 0);
        assert(shape_numel(s.drop_last().drop_last()) == 1);
        assert(shape_numel(s.drop_last()) == s[0]);
    }
}

/// Replacing the last dimension of a valid shape by `d` gives a valid shape
/// with `d` elements for each row of the first.
pub proof fn lemma_numel_replace_last(s: Seq<i64>, d: i64)
    requires
        shape_valid(s),
        d >= 1,
    ensures
        shape_valid(s.drop_last().push(d)),
        shape_numel(s.drop_last().push(d)) == shape_numel(s.drop_last()) * d,
{
    let t: Seq<i64> = s.drop_last().push(d);
    assert(t.drop_last() =~= s.drop_last());
    assert(t.last() == d);
}

/// Index `i` of a grid of `rows` rows of `n` entries lies in row `i / n` at
/// place `i % n`.
pub proof fn lemma_grid_index(i: int, n: int, rows: int)
    requires
        0 <= i < rows * n,
        0 < n,
    ensures
        0 <= i / n < rows,
        0 <= i % n < n,
        i == (i / n) * n + i % n,
{
    vstd::arithmetic::div_mod::lemma_fundamental_div_mod(i, n);
    vstd::arithmetic::div_mod::lemma_mod_bound(i, n);
    let q: int = i / n;
    let m: int = i % n;
    assert(n * q == q * n) by (nonlinear_arith);
    if q >= rows {
        assert(q * n >= rows * n) by (nonlinear_arith)
            requires
                q >= rows,
                n > 0,
        ;
    }
    if q < 0 {
        assert(q * n <= -n) by (nonlinear_arith)
            requires
                q <= -1,
                n > 0,
        ;
    }
}

/// Place `j` of row `r` of a grid of `rows` rows of `n` entries has an index
/// inside the grid.
pub proof fn lemma_grid_place(r: int, j: int, n: int, rows: int)
    requires
        0 <= r < rows,
        0 <= j < n,
    ensures
        0 <= r * n <= r * n + j < (r + 1) * n <= rows * n,
        (r + 1) * n == r * n + n,
        (r * n + j) / n == r,
        (r * n + j) % n == j,
{
    assert(0 <= r * n && (r + 1) * n == r * n + n && (r + 1) * n <= rows * n) by (nonlinear_arith)
        requires
            0 <= r < rows,
            0 < n,
    ;
    vstd::arithmetic::div_mod::lemma_fundamental_div_mod_converse(r * n + j, n, r, j);
}

/// Tells whether `dims` is a valid shape.
pub fn is_valid_shape(dims: &[i64]) -> (ok: bool)
    ensures
        ok == shape_valid(dims@),
{
    if dims.len() == 0 {
        return false;
    }
    let mut i: usize = 0;
    while i < dims.len()
        invariant
            i <= dims.len(),
            forall|k: int| 0 <= k < i ==> dims@[k] >= 1,
        decreases dims.len() - i,
    {
        if dims[i] < 1 {
            return false;
        }
        i = i + 1;
    }
    true
}

/// The element count of `dims`, where `dims` is a valid shape and the count
/// fits `usize`.
pub fn checked_numel(dims: &[i64]) -> (r: Option<usize>)
    ensures
        r is Some <==> shape_valid(dims@) && shape_numel(dims@) <= usize::MAX,
        r matches Some(n) ==> n == shape_numel(dims@),
{
    if !is_valid_shape(dims) {
        return None;
    }
    let mut acc: usize = 1;
    let mut i: usize = 0;
    assert(dims@.take(0).len() == 0);
    while i < dims.len()
        invariant
            i <= dims.len(),
            shape_valid(dims@),
            acc == shape_numel(dims@.take(i as int)),
        decreases dims.len() - i,
    {
        let d: u64 = dims[i] as u64;
        proof {
            assert(dims@.take(i + 1).drop_last() =~= dims@.take(i as int));
            assert(dims@.take(dims.len() as int) =~= dims@);
            lemma_numel_prefix(dims@, i + 1, dims.len() as int);
            lemma_numel_prefix(dims@, i as int, i + 1);
        }
        if d > usize::MAX as u64 {
            assert(acc * d >= d) by (nonlinear_arith)
                requires
                    acc >= 1,
                    d >= 1,
            ;
            return None;
        }
        match acc.checked_mul(d as usize) {
            Some(next) => {
                acc = next;
            },
            None => {
                return None;
            },
        }
        i = i + 1;
    }
    assert(dims@.take(dims.len() as int) =~= dims@);
    Some(acc)
}

/// Tells whether `usize` can count the elements of `dims`, where `dims` is a
/// valid shape.
pub fn fits_usize(dims: &[i64]) -> (b: bool)
    ensures
        b == shape_fits(dims@),
{
    !is_valid_shape(dims) || checked_numel(dims).is_some()
}

} // verus!
