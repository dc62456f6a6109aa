//! What slicing and combining have in common.

use vstd::prelude::*;
use crate::combining::combine_outcome;
use crate::combining::combined;
use crate::combining::last_tagged;
use crate::combining::middle;
use crate::combining::plane_fits;
use crate::combining::stack_outcome;
use crate::combining::stacked;
use crate::common::Direction;
use crate::common::TaggedView;
use crate::error::SliceError;
use crate::grid::GridView;
use crate::guess::guessed;
use crate::shape::in_box;
use crate::shape::lemma_box_remove;
use crate::shape::lemma_remove_then_insert;
use crate::combining::lemma_last_tagged_range;
use crate::slicing::plane_of;
use crate::slicing::planes_of;
use crate::slicing::vols_of;

verus! {

/// Where each block is tagged with its place in the sequence, the last one
/// tagged `p` is the one at place `p`.
proof fn lemma_last_tagged_in_order(planes: Seq<TaggedView>, p: int)
    requires
        forall|i: int| 0 <= i < planes.len() ==> (#[trigger] planes[i]).index == i,
    ensures
        last_tagged(planes, p) == if 0 <= p < planes.len() {
            p
        } else {
            -1
        },
    decreases planes.len(),
{
    if planes.len() > 0 && planes.last().index != p {
        lemma_last_tagged_in_order(planes.drop_last(), p);
    }
}

/// The cell that combining reads from a plane of any thickness is the cell
/// of the volume that the plane was cut from.
proof fn lemma_middle_cell(v: GridView, axis: int, i: int, thickness: usize, idx: Seq<int>)
    requires
        v.rank() == 3,
        0 <= axis < 3,
        thickness >= 1,
        idx.len() == 3,
        forall|d: int| 0 <= d < 3 && d != axis ==> 0 <= #[trigger] idx[d] < v.shape[d],
    ensures
        ({
            let plane = plane_of(v, axis, i, thickness);
            plane.cells[idx.update(axis, middle(plane, axis))] == v.cells[idx.update(axis, i)]
        }),
{
    let plane = plane_of(v, axis, i, thickness);
    let mid = middle(plane, axis);
    let at = idx.update(axis, mid);
    assert(in_box(plane.shape, at)) by {
        assert forall|d: int| 0 <= d < 3 implies 0 <= #[trigger] at[d] < plane.shape[d] by {
            if d != axis {
                assert(at[d] == idx[d]);
            }
        }
    }
    assert(at.update(axis, i) =~= idx.update(axis, i));
}

/// Slicing a volume along an axis gives one plane for each position along
/// that axis, in order: the plane at place `i` is tagged `i`, so each
/// position occurs exactly once.
pub proof fn ordinal_coverage(v: GridView, axis: Direction, padding: usize)
    requires
        v.rank() == 3,
    ensures
        planes_of(v, axis.axis(), padding).len() == v.shape[axis.axis()],
        forall|i: int|
            0 <= i < v.shape[axis.axis()] ==> (#[trigger] planes_of(
                v,
                axis.axis(),
                padding,
            )[i]).index == i,
        forall|i: int, j: int|
            0 <= i < v.shape[axis.axis()] && 0 <= j < v.shape[axis.axis()] && planes_of(
                v,
                axis.axis(),
                padding,
            )[i].index == planes_of(v, axis.axis(), padding)[j].index ==> i == j,
{
}

/// Slicing a volume along an axis without padding and combining the planes
/// along the same axis, with the volume itself as reference, gives the
/// volume back, cell for cell.
pub proof fn round_trip(v: GridView, axis: Direction)
    requires
        v.wf(),
        v.rank() == 3,
    ensures
        combine_outcome(planes_of(v, axis.axis(), 1), axis.axis(), v) == Ok::<GridView, SliceError>(
            v,
        ),
{
    let a = axis.axis();
    let planes = planes_of(v, a, 1);
    let back = combined(planes, a, v.shape);
    assert forall|idx: Seq<int>| in_box(v.shape, idx) implies #[trigger] back.cells[idx]
        == v.cells[idx] by {
        let p = idx[a];
        lemma_last_tagged_in_order(planes, p);
        lemma_middle_cell(v, a, p, 1, idx);
        assert(idx.update(a, p) =~= idx);
    }
    assert(back.cells =~= v.cells);
}

/// Combining planes that were cut with padding gives what combining the
/// planes cut without padding gives, for the same volume and axis and
/// against any reference: the middle copy of a padded plane is the plane.
pub proof fn padding_cancels(v: GridView, reference: GridView, axis: Direction, padding: usize)
    requires
        v.rank() == 3,
        padding >= 1,
    ensures
        combine_outcome(planes_of(v, axis.axis(), padding), axis.axis(), reference)
            == combine_outcome(planes_of(v, axis.axis(), 1), axis.axis(), reference),
{
    let a = axis.axis();
    let thick = planes_of(v, a, padding);
    let thin = planes_of(v, a, 1);
    assert forall|k: int| 0 <= k < thick.len() implies plane_fits(
        (#[trigger] thick[k]).block.shape,
        a,
        reference.shape,
    ) == plane_fits(thin[k].block.shape, a, reference.shape) by {
        let s = thick[k].block.shape;
        let t = thin[k].block.shape;
        assert forall|d: int| 0 <= d < 3 && d != a implies s[d] == t[d] by {}
    }
    if reference.rank() == 3 && thick.len() == reference.shape[a] {
        let bad_thick = exists|k: int|
            0 <= k < thick.len() && !plane_fits((#[trigger] thick[k]).block.shape, a, reference.shape);
        let bad_thin = exists|k: int|
            0 <= k < thin.len() && !plane_fits((#[trigger] thin[k]).block.shape, a, reference.shape);
        if bad_thick {
            let k = choose|k: int|
                0 <= k < thick.len() && !plane_fits(
                    (#[trigger] thick[k]).block.shape,
                    a,
                    reference.shape,
                );
            assert(!plane_fits(thin[k].block.shape, a, reference.shape));
        }
        if bad_thin {
            let k = choose|k: int|
                0 <= k < thin.len() && !plane_fits(
                    (#[trigger] thin[k]).block.shape,
                    a,
                    reference.shape,
                );
            assert(!plane_fits(thick[k].block.shape, a, reference.shape));
        }
        if !bad_thick {
            let left = combined(thick, a, reference.shape);
            let right = combined(thin, a, reference.shape);
            assert forall|idx: Seq<int>| in_box(reference.shape, idx) implies #[trigger] left.cells[idx]
                == right.cells[idx] by {
                let p = idx[a];
                lemma_last_tagged_in_order(thick, p);
                lemma_last_tagged_in_order(thin, p);
                assert(plane_fits(thick[p].block.shape, a, reference.shape));
                assert forall|d: int| 0 <= d < 3 && d != a implies 0 <= #[trigger] idx[d]
                    < v.shape[d] by {
                    assert(thick[p].block.shape[d] == reference.shape[d]);
                }
                lemma_middle_cell(v, a, p, padding, idx);
                lemma_middle_cell(v, a, p, 1, idx);
            }
            assert(left.cells =~= right.cells);
        }
    }
}

/// Splitting a time series into its volumes and stacking them again,
/// against a reference with the shape of one volume, gives the series back.
pub proof fn time_round_trip(series: GridView, reference: GridView)
    requires
        series.wf(),
        series.rank() == 4,
        reference.shape == series.shape.remove(3),
    ensures
        stack_outcome(vols_of(series), reference) == Ok::<GridView, SliceError>(series),
{
    let vols = vols_of(series);
    assert(reference.shape.push(vols.len() as usize) =~= series.shape);
    let back = stacked(vols, series.shape);
    assert forall|idx: Seq<int>| in_box(series.shape, idx) implies #[trigger] back.cells[idx]
        == series.cells[idx] by {
        let p = idx[3];
        lemma_last_tagged_in_order(vols, p);
        lemma_box_remove(series.shape, idx, 3);
        lemma_remove_then_insert(idx, 3, p);
        assert(idx.update(3, p) =~= idx);
    }
    assert(back.cells =~= series.cells);
}

/// Whether no two blocks have the same tag.
pub open spec fn distinct_tags(planes: Seq<TaggedView>) -> bool {
    forall|i: int, j: int|
        0 <= i < planes.len() && 0 <= j < planes.len() && (#[trigger] planes[i]).index
            == (#[trigger] planes[j]).index ==> i == j
}

/// A block with tag `p` at place `i` is found by `last_tagged`, at `i` or
/// after it.
proof fn lemma_last_tagged_finds(planes: Seq<TaggedView>, p: int, i: int)
    requires
        0 <= i < planes.len(),
        planes[i].index == p,
    ensures
        last_tagged(planes, p) >= i,
    decreases planes.len(),
{
    if planes.last().index != p {
        lemma_last_tagged_finds(planes.drop_last(), p, i);
    }
}

/// Where no two blocks have the same tag, the block that `last_tagged`
/// finds in a rearrangement of them is the block that it finds in them.
proof fn lemma_same_block_found(a: Seq<TaggedView>, b: Seq<TaggedView>, p: int)
    requires
        distinct_tags(a),
        forall|i: int| 0 <= i < a.len() ==> b.contains(#[trigger] a[i]),
        forall|j: int| 0 <= j < b.len() ==> a.contains(#[trigger] b[j]),
    ensures
        last_tagged(a, p) >= 0 <==> last_tagged(b, p) >= 0,
        last_tagged(a, p) >= 0 ==> a[last_tagged(a, p)] == b[last_tagged(b, p)],
{
    let ka = last_tagged(a, p);
    let kb = last_tagged(b, p);
    lemma_last_tagged_range(a, p);
    lemma_last_tagged_range(b, p);
    if ka >= 0 {
        assert(b.contains(a[ka]));
        let j = choose|j: int| 0 <= j < b.len() && b[j] == a[ka];
        lemma_last_tagged_finds(b, p, j);
    }
    if kb >= 0 {
        assert(a.contains(b[kb]));
        let i = choose|i: int| 0 <= i < a.len() && a[i] == b[kb];
        lemma_last_tagged_finds(a, p, i);
        assert(a[i].index == a[ka].index);
    }
}

/// The order in which planes are written does not matter: where no two
/// planes have the same tag, combining them in any order gives the same
/// volume, or fails in the same way.
pub proof fn write_order_is_irrelevant(
    a: Seq<TaggedView>,
    b: Seq<TaggedView>,
    axis: Direction,
    reference: GridView,
)
    requires
        distinct_tags(a),
        a.to_multiset() == b.to_multiset(),
    ensures
        combine_outcome(a, axis.axis(), reference) == combine_outcome(b, axis.axis(), reference),
{
    let ax = axis.axis();
    a.to_multiset_ensures();
    b.to_multiset_ensures();
    assert forall|i: int| 0 <= i < a.len() implies b.contains(#[trigger] a[i]) by {
        assert(a.contains(a[i]));
        assert(a.to_multiset().count(a[i]) > 0);
        assert(b.to_multiset().count(a[i]) > 0);
    }
    assert forall|j: int| 0 <= j < b.len() implies a.contains(#[trigger] b[j]) by {
        assert(b.contains(b[j]));
        assert(b.to_multiset().count(b[j]) > 0);
        assert(a.to_multiset().count(b[j]) > 0);
    }
    if reference.rank() == 3 && a.len() == reference.shape[ax] {
        let bad_a = exists|k: int|
            0 <= k < a.len() && !plane_fits((#[trigger] a[k]).block.shape, ax, reference.shape);
        let bad_b = exists|k: int|
            0 <= k < b.len() && !plane_fits((#[trigger] b[k]).block.shape, ax, reference.shape);
        if bad_a {
            let k = choose|k: int|
                0 <= k < a.len() && !plane_fits((#[trigger] a[k]).block.shape, ax, reference.shape);
            assert(b.contains(a[k]));
            let j = choose|j: int| 0 <= j < b.len() && b[j] == a[k];
            assert(!plane_fits(b[j].block.shape, ax, reference.shape));
        }
        if bad_b {
            let k = choose|k: int|
                0 <= k < b.len() && !plane_fits((#[trigger] b[k]).block.shape, ax, reference.shape);
            assert(a.contains(b[k]));
            let i = choose|i: int| 0 <= i < a.len() && a[i] == b[k];
            assert(!plane_fits(a[i].block.shape, ax, reference.shape));
        }
        if !bad_a {
            let left = combined(a, ax, reference.shape);
            let right = combined(b, ax, reference.shape);
            assert forall|idx: Seq<int>| in_box(reference.shape, idx) implies #[trigger] left.cells[idx]
                == right.cells[idx] by {
                lemma_same_block_found(a, b, idx[ax]);
            }
            assert(left.cells =~= right.cells);
        }
    }
}

/// The guess finds the axis of the cut: planes that are thinner along one
/// axis than the volume that they were cut from, and as long as it along the
/// other two, speak for that axis.
pub proof fn guess_finds_the_axis(shape: Seq<usize>, axis: Direction, thickness: usize)
    requires
        shape.len() == 3,
        thickness < shape[axis.axis()],
    ensures
        guessed(shape.update(axis.axis(), thickness), shape, seq![false, false, false]) == Ok::<
            Direction,
            SliceError,
        >(axis),
{
}

} // verus!
