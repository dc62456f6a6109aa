//! Shapes and indices of rectangular blocks.

use vstd::prelude::*;

verus! {

/// Whether `idx` addresses a cell of a block with axis lengths `shape`.
pub open spec fn in_box(shape: Seq<usize>, idx: Seq<int>) -> bool {
    &&& idx.len() == shape.len()
    &&& forall|d: int| 0 <= d < shape.len() ==> 0 <= #[trigger] idx[d] < shape[d]
}

/// An index given as machine integers, read as mathematical integers.
pub open spec fn as_index(idx: Seq<usize>) -> Seq<int> {
    idx.map_values(|c: usize| c as int)
}

/// The product of the axis lengths that are not zero.
pub open spec fn span(shape: Seq<usize>) -> nat
    decreases shape.len(),
{
    if shape.len() == 0 {
        1
    } else if shape.last() == 0 {
        span(shape.drop_last())
    } else {
        span(shape.drop_last()) * (shape.last() as nat)
    }
}

/// Whether a block of this shape can be allocated: its cells, eight bytes
/// each and counted as if no axis were empty, fit in `isize::MAX` bytes.
pub open spec fn allocatable(shape: Seq<usize>) -> bool {
    span(shape) * 8 <= isize::MAX
}

/// Removing a coordinate and putting another in its place replaces it.
pub(crate) proof fn lemma_remove_then_insert<A>(s: Seq<A>, a: int, x: A)
    requires
        0 <= a < s.len(),
    ensures
        s.remove(a).insert(a, x) =~= s.update(a, x),
{
}

/// An index inside a block stays inside when one axis is dropped from both.
pub(crate) proof fn lemma_box_remove(shape: Seq<usize>, idx: Seq<int>, a: int)
    requires
        in_box(shape, idx),
        0 <= a < shape.len(),
    ensures
        in_box(shape.remove(a), idx.remove(a)),
{
    let s = shape.remove(a);
    let j = idx.remove(a);
    assert forall|d: int| 0 <= d < s.len() implies 0 <= #[trigger] j[d] < s[d] by {
        if d < a {
            assert(j[d] == idx[d]);
        } else {
            assert(j[d] == idx[d + 1]);
        }
    }
}

/// An index inside a block stays inside when one axis length and the
/// coordinate on that axis are replaced together.
pub(crate) proof fn lemma_box_update(shape: Seq<usize>, idx: Seq<int>, a: int, len: usize, i: int)
    requires
        in_box(shape, idx),
        0 <= a < shape.len(),
        0 <= i < len,
    ensures
        in_box(shape.update(a, len), idx.update(a, i)),
{
    let s = shape.update(a, len);
    let j = idx.update(a, i);
    assert forall|d: int| 0 <= d < s.len() implies 0 <= #[trigger] j[d] < s[d] by {
        if d != a {
            assert(j[d] == idx[d]);
        }
    }
}

/// The span of a shape is at least one.
proof fn lemma_span_positive(shape: Seq<usize>)
    ensures
        span(shape) >= 1,
    decreases shape.len(),
{
    if shape.len() > 0 {
        lemma_span_positive(shape.drop_last());
        let rest = span(shape.drop_last());
        let last = shape.last() as nat;
        if last != 0 {
            assert(rest * last >= 1) by (nonlinear_arith)
                requires
                    rest >= 1,
                    last >= 1,
            ;
        }
    }
}

/// The span of the first `n` axes is at most the span of all of them.
proof fn lemma_span_prefix(shape: Seq<usize>, n: int)
    requires
        0 <= n <= shape.len(),
    ensures
        span(shape.take(n)) <= span(shape),
    decreases shape.len(),
{
    if n == shape.len() {
        assert(shape.take(n) =~= shape);
    } else {
        let front = shape.drop_last();
        assert(shape.take(n) =~= front.take(n));
        lemma_span_prefix(front, n);
        lemma_span_positive(front);
        let rest = span(front);
        let last = shape.last() as nat;
        if last != 0 {
            assert(rest <= rest * last) by (nonlinear_arith)
                requires
                    rest >= 1,
                    last >= 1,
            ;
        }
    }
}

/// The span grows with the length of an axis, as long as the axis is not empty.
pub(crate) proof fn lemma_span_monotone(shape: Seq<usize>, a: int, x: usize, y: usize)
    requires
        0 <= a < shape.len(),
        1 <= x <= y,
    ensures
        span(shape.update(a, x)) <= span(shape.update(a, y)),
    decreases shape.len(),
{
    let sx = shape.update(a, x);
    let sy = shape.update(a, y);
    let front = shape.drop_last();
    if a == shape.len() - 1 {
        assert(sx.drop_last() =~= front);
        assert(sy.drop_last() =~= front);
        let rest = span(front);
        assert(rest * (x as nat) <= rest * (y as nat)) by (nonlinear_arith)
            requires
                x <= y,
        ;
    } else {
        assert(sx.drop_last() =~= front.update(a, x));
        assert(sy.drop_last() =~= front.update(a, y));
        lemma_span_monotone(front, a, x, y);
        let rx = span(front.update(a, x));
        let ry = span(front.update(a, y));
        let last = shape.last() as nat;
        assert(rx * last <= ry * last) by (nonlinear_arith)
            requires
                rx <= ry,
        ;
    }
}

/// Whether a block of this shape can be allocated.
pub fn fits(shape: &Vec<usize>) -> (r: bool)
    ensures
        r == allocatable(shape@),
{
    let limit: usize = (isize::MAX as usize) / 8;
    let mut acc: usize = 1;
    let mut i: usize = 0;
    while i < shape.len()
        invariant
            i <= shape.len(),
            limit == (isize::MAX as usize) / 8,
            acc == span(shape@.take(i as int)),
            acc <= limit,
        decreases shape.len() - i,
    {
        let d = shape[i];
        proof {
            assert(shape@.take(i + 1).drop_last() =~= shape@.take(i as int));
            assert(shape@.take(i + 1).last() == d);
        }
        if d != 0 {
            if acc > limit / d {
                proof {
                    let q = (limit / d) as int;
                    assert(acc * d > limit) by (nonlinear_arith)
                        requires
                            acc >= q + 1,
                            d > 0,
                            q == (limit as int) / (d as int),
                    ;
                    lemma_span_prefix(shape@, i + 1);
                }
                return false;
            }
            proof {
                let q = (limit / d) as int;
                assert(acc * d <= limit) by (nonlinear_arith)
                    requires
                        0 <= acc <= q,
                        d > 0,
                        q == (limit as int) / (d as int),
                ;
            }
            acc = acc * d;
        }
        i += 1;
    }
    proof {
        assert(shape@.take(shape.len() as int) =~= shape@);
    }
    true
}

/// Whether `idx` addresses a cell of a block with axis lengths `shape`.
pub fn contains(shape: &Vec<usize>, idx: &Vec<usize>) -> (r: bool)
    ensures
        r == in_box(shape@, as_index(idx@)),
{
    if idx.len() != shape.len() {
        return false;
    }
    let mut d: usize = 0;
    while d < shape.len()
        invariant
            d <= shape.len(),
            idx.len() == shape.len(),
            forall|k: int| 0 <= k < d ==> idx[k] < shape[k],
        decreases shape.len() - d,
    {
        if idx[d] >= shape[d] {
            assert(as_index(idx@)[d as int] == idx[d as int]);
            return false;
        }
        d += 1;
    }
    assert forall|k: int| 0 <= k < shape.len() implies 0 <= #[trigger] as_index(idx@)[k]
        < shape[k] by {
        assert(as_index(idx@)[k] == idx[k]);
    }
    true
}

/// Whether two shapes are the same.
pub fn same_shape(a: &Vec<usize>, b: &Vec<usize>) -> (r: bool)
    ensures
        r == (a@ == b@),
{
    if a.len() != b.len() {
        return false;
    }
    let mut d: usize = 0;
    while d < a.len()
        invariant
            d <= a.len(),
            a.len() == b.len(),
            forall|k: int| 0 <= k < d ==> a[k] == b[k],
        decreases a.len() - d,
    {
        if a[d] != b[d] {
            return false;
        }
        d += 1;
    }
    assert(a@ =~= b@);
    true
}

} // verus!
