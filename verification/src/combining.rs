//! Putting planes back into a volume, and volumes into a time series.

use vstd::prelude::*;
use crate::common::Direction;
use crate::common::Slice3D;
use crate::common::TaggedView;
use crate::error::SliceError;
use crate::grid::raw_assign_axis;
use crate::grid::raw_index_axis;
use crate::grid::raw_zeros;
use crate::grid::raw_zeros_like;
use crate::grid::Grid;
use crate::grid::GridView;
use crate::shape::allocatable;
use crate::shape::fits;
use crate::shape::in_box;
use crate::shape::lemma_box_remove;
use crate::shape::lemma_remove_then_insert;
use crate::shape::same_shape;
use crate::slicing::plane_views;

verus! {

/// The position of the middle copy of a plane along `axis`: half its
/// thickness, rounded down.
pub open spec fn middle(block: GridView, axis: int) -> int {
    (block.shape[axis] as int) / 2
}

/// Whether a plane can be written into a volume of `shape`: it has three
/// axes, is at least one cell thick along `axis`, and has the volume's
/// length on the other two axes.
pub open spec fn plane_fits(plane: Seq<usize>, axis: int, shape: Seq<usize>) -> bool {
    &&& plane.len() == 3
    &&& plane[axis] >= 1
    &&& forall|d: int| 0 <= d < 3 && d != axis ==> plane[d] == shape[d]
}

/// The place in `planes` of the last one tagged `p`, or -1 if there is none.
pub open spec fn last_tagged(planes: Seq<TaggedView>, p: int) -> int
    decreases planes.len(),
{
    if planes.len() == 0 {
        -1
    } else if planes.last().index == p {
        planes.len() - 1
    } else {
        last_tagged(planes.drop_last(), p)
    }
}

/// The cell at `idx` of the volume that `planes` give along `axis`: the
/// cell of the middle copy of the last plane tagged with the position of
/// `idx` along `axis`, or zero where no plane has that tag.
pub open spec fn combined_cell(planes: Seq<TaggedView>, axis: int, idx: Seq<int>) -> u64 {
    let k = last_tagged(planes, idx[axis]);
    if k < 0 {
        0
    } else {
        planes[k].block.cells[idx.update(axis, middle(planes[k].block, axis))]
    }
}

/// The volume of `shape` that `planes` give along `axis`.
pub open spec fn combined(planes: Seq<TaggedView>, axis: int, shape: Seq<usize>) -> GridView {
    GridView::build(shape, |idx: Seq<int>| combined_cell(planes, axis, idx))
}

/// What combining `planes` along `axis` against `reference` comes to.
pub open spec fn combine_outcome(planes: Seq<TaggedView>, axis: int, reference: GridView) -> Result<
    GridView,
    SliceError,
> {
    if reference.rank() != 3 {
        Err(SliceError::DimensionalityError)
    } else if planes.len() != reference.shape[axis] {
        Err(SliceError::CountMismatchError)
    } else if exists|k: int|
        0 <= k < planes.len() && !plane_fits(
            (#[trigger] planes[k]).block.shape,
            axis,
            reference.shape,
        ) {
        Err(SliceError::DimensionalityError)
    } else {
        Ok(combined(planes, axis, reference.shape))
    }
}

/// Writing the middle copy of one more plane into what the planes before
/// it gave is what all of them give.
proof fn lemma_combined_step(planes: Seq<TaggedView>, axis: int, shape: Seq<usize>, n: int)
    requires
        shape.len() == 3,
        0 <= axis < 3,
        0 <= n < planes.len(),
        plane_fits(planes[n].block.shape, axis, shape),
    ensures
        combined(planes.take(n), axis, shape).assign_axis(
            axis,
            planes[n].index as int,
            planes[n].block.index_axis(axis, middle(planes[n].block, axis)),
        ) == combined(planes.take(n + 1), axis, shape),
{
    let before = planes.take(n);
    let after = planes.take(n + 1);
    let plane = planes[n].block;
    let mid = middle(plane, axis);
    let cut = plane.index_axis(axis, mid);
    let left = combined(before, axis, shape).assign_axis(axis, planes[n].index as int, cut);
    let right = combined(after, axis, shape);
    assert(after.drop_last() =~= before);
    assert(after.last() == planes[n]);
    assert forall|idx: Seq<int>| in_box(shape, idx) implies #[trigger] left.cells[idx]
        == right.cells[idx] by {
        if idx[axis] == planes[n].index {
            lemma_box_remove(shape, idx, axis);
            assert(shape.remove(axis) =~= plane.shape.remove(axis));
            lemma_remove_then_insert(idx, axis, mid);
        } else {
            let k = last_tagged(before, idx[axis]);
            lemma_last_tagged_range(before, idx[axis]);
            if k >= 0 {
                assert(after[k] == before[k]);
            }
        }
    }
    assert(left.cells =~= right.cells);
}

/// The place that `last_tagged` gives holds a plane with that tag.
pub(crate) proof fn lemma_last_tagged_range(planes: Seq<TaggedView>, p: int)
    ensures
        -1 <= last_tagged(planes, p) < planes.len(),
        last_tagged(planes, p) >= 0 ==> planes[last_tagged(planes, p)].index == p,
    decreases planes.len(),
{
    if planes.len() > 0 && planes.last().index != p {
        lemma_last_tagged_range(planes.drop_last(), p);
    }
}

/// Whether the plane can be written into a volume of `shape` along `axis`.
fn fits_reference(plane: &Vec<usize>, axis: usize, shape: &Vec<usize>) -> (r: bool)
    requires
        shape.len() == 3,
        axis < 3,
    ensures
        r == plane_fits(plane@, axis as int, shape@),
{
    if plane.len() != 3 {
        return false;
    }
    if plane[axis] < 1 {
        return false;
    }
    let mut d: usize = 0;
    while d < 3
        invariant
            d <= 3,
            plane.len() == 3,
            shape.len() == 3,
            forall|k: int| 0 <= k < d && k != axis ==> plane[k] == shape[k],
        decreases 3 - d,
    {
        if d != axis && plane[d] != shape[d] {
            return false;
        }
        d += 1;
    }
    true
}

/// Whether each block is tagged with a position below the number of blocks.
pub open spec fn tags_in_range(planes: Seq<TaggedView>) -> bool {
    forall|k: int| 0 <= k < planes.len() ==> (#[trigger] planes[k]).index < planes.len()
}

/// Whether each block is tagged with a position below the number of blocks.
pub fn has_tags_in_range(slices: &Vec<Slice3D>) -> (r: bool)
    ensures
        r == tags_in_range(plane_views(slices@)),
{
    let ghost planes = plane_views(slices@);
    let mut k: usize = 0;
    while k < slices.len()
        invariant
            k <= slices.len(),
            planes == plane_views(slices@),
            forall|j: int| 0 <= j < k ==> (#[trigger] planes[j]).index < planes.len(),
        decreases slices.len() - k,
    {
        assert(planes[k as int] == slices[k as int]@);
        if slices[k].index >= slices.len() {
            return false;
        }
        k += 1;
    }
    true
}

/// Reassembles a volume from its planes along `axis`.
///
/// The result has the shape of `reference`. For each plane, the middle copy
/// along `axis` is written at the position that the plane is tagged with;
/// cells that no plane covers are zero. The number of planes must equal the
/// length of `reference` along `axis`, and each plane must have the
/// reference's cross-section.
pub fn combine_slices(slices: &Vec<Slice3D>, axis: &Direction, reference: &Grid) -> (res: Result<
    Grid,
    SliceError,
>)
    requires
        tags_in_range(plane_views(slices@)),
    ensures
        match res {
            Ok(g) => combine_outcome(plane_views(slices@), axis.axis(), reference@) == Ok::<
                GridView,
                SliceError,
            >(g@),
            Err(e) => combine_outcome(plane_views(slices@), axis.axis(), reference@) == Err::<
                GridView,
                SliceError,
            >(e),
        },
{
    let shape = reference.shape();
    if shape.len() != 3 {
        return Err(SliceError::DimensionalityError);
    }
    let a = axis.to_usize();
    if slices.len() != shape[a] {
        return Err(SliceError::CountMismatchError);
    }
    let ghost planes = plane_views(slices@);
    let mut combined_img = raw_zeros_like(reference);
    assert(combined_img@ == combined(planes.take(0), a as int, shape@)) by {
        assert(combined_img@.cells =~= combined(planes.take(0), a as int, shape@).cells);
    }
    let mut n: usize = 0;
    while n < slices.len()
        invariant
            n <= slices.len(),
            shape@ == reference@.shape,
            shape.len() == 3,
            a == axis.axis(),
            slices.len() == shape[a as int],
            planes == plane_views(slices@),
            tags_in_range(planes),
            forall|k: int|
                0 <= k < n ==> plane_fits((#[trigger] planes[k]).block.shape, a as int, shape@),
            combined_img@ == combined(planes.take(n as int), a as int, shape@),
        decreases slices.len() - n,
    {
        let plane = &slices[n];
        let plane_shape = plane.slice.shape();
        assert(planes[n as int] == plane@);
        if !fits_reference(&plane_shape, a, &shape) {
            return Err(SliceError::DimensionalityError);
        }
        let mid_index = plane_shape[a] / 2;
        let middle_plane = raw_index_axis(&plane.slice, a, mid_index);
        proof {
            assert(plane_shape@.remove(a as int) =~= shape@.remove(a as int));
            lemma_combined_step(planes, a as int, shape@, n as int);
        }
        raw_assign_axis(&mut combined_img, a, plane.index, &middle_plane);
        n += 1;
    }
    assert(planes.take(n as int) =~= planes);
    Ok(combined_img)
}

/// The cell at `idx` of the time series that `vols` give: the cell of the
/// last volume tagged with the time of `idx`, or zero where no volume has
/// that tag.
pub open spec fn stacked_cell(vols: Seq<TaggedView>, idx: Seq<int>) -> u64 {
    let k = last_tagged(vols, idx[3]);
    if k < 0 {
        0
    } else {
        vols[k].block.cells[idx.remove(3)]
    }
}

/// The time series of `shape` that `vols` give.
pub open spec fn stacked(vols: Seq<TaggedView>, shape: Seq<usize>) -> GridView {
    GridView::build(shape, |idx: Seq<int>| stacked_cell(vols, idx))
}

/// What stacking `vols` in time against `reference` comes to.
pub open spec fn stack_outcome(vols: Seq<TaggedView>, reference: GridView) -> Result<
    GridView,
    SliceError,
> {
    if reference.rank() != 3 {
        Err(SliceError::DimensionalityError)
    } else if exists|k: int|
        0 <= k < vols.len() && (#[trigger] vols[k]).block.shape != reference.shape {
        Err(SliceError::DimensionalityError)
    } else {
        Ok(stacked(vols, reference.shape.push(vols.len() as usize)))
    }
}

/// Writing one more volume into what the volumes before it gave is what all
/// of them give.
proof fn lemma_stacked_step(vols: Seq<TaggedView>, shape: Seq<usize>, n: int)
    requires
        shape.len() == 4,
        0 <= n < vols.len(),
        vols[n].block.shape == shape.remove(3),
    ensures
        stacked(vols.take(n), shape).assign_axis(3, vols[n].index as int, vols[n].block)
            == stacked(vols.take(n + 1), shape),
{
    let before = vols.take(n);
    let after = vols.take(n + 1);
    let left = stacked(before, shape).assign_axis(3, vols[n].index as int, vols[n].block);
    let right = stacked(after, shape);
    assert(after.drop_last() =~= before);
    assert(after.last() == vols[n]);
    assert forall|idx: Seq<int>| in_box(shape, idx) implies #[trigger] left.cells[idx]
        == right.cells[idx] by {
        if idx[3] != vols[n].index {
            let k = last_tagged(before, idx[3]);
            lemma_last_tagged_range(before, idx[3]);
            if k >= 0 {
                assert(after[k] == before[k]);
            }
        }
    }
    assert(left.cells =~= right.cells);
}

/// Stacks volumes along a new fourth axis, time.
///
/// The result has the shape of `reference` followed by the number of
/// volumes. Each volume is written at the time that it is tagged with;
/// points in time that no volume covers are zero. Each volume must have the
/// shape of `reference`.
pub fn combine_volumes(slices: &Vec<Slice3D>, reference: &Grid) -> (res: Result<Grid, SliceError>)
    requires
        tags_in_range(plane_views(slices@)),
        reference@.rank() == 3 ==> allocatable(reference@.shape.push(slices.len())),
    ensures
        match res {
            Ok(g) => stack_outcome(plane_views(slices@), reference@) == Ok::<GridView, SliceError>(
                g@,
            ),
            Err(e) => stack_outcome(plane_views(slices@), reference@) == Err::<
                GridView,
                SliceError,
            >(e),
        },
{
    let shape = reference.shape();
    if shape.len() != 3 {
        return Err(SliceError::DimensionalityError);
    }
    let mut fixed_shape = reference.shape();
    fixed_shape.push(slices.len());
    let ghost vols = plane_views(slices@);
    let mut combined_img = raw_zeros(&fixed_shape);
    assert(combined_img@ == stacked(vols.take(0), fixed_shape@)) by {
        assert(combined_img@.cells =~= stacked(vols.take(0), fixed_shape@).cells);
    }
    let mut n: usize = 0;
    while n < slices.len()
        invariant
            n <= slices.len(),
            shape@ == reference@.shape,
            shape.len() == 3,
            fixed_shape@ == shape@.push(slices.len()),
            vols == plane_views(slices@),
            tags_in_range(vols),
            forall|k: int| 0 <= k < n ==> (#[trigger] vols[k]).block.shape == shape@,
            combined_img@ == stacked(vols.take(n as int), fixed_shape@),
        decreases slices.len() - n,
    {
        let vol = &slices[n];
        let vol_shape = vol.slice.shape();
        assert(vols[n as int] == vol@);
        if !same_shape(&vol_shape, &shape) {
            return Err(SliceError::DimensionalityError);
        }
        proof {
            assert(fixed_shape@.remove(3) =~= shape@);
            lemma_stacked_step(vols, fixed_shape@, n as int);
        }
        raw_assign_axis(&mut combined_img, 3, vol.index, &vol.slice);
        n += 1;
    }
    assert(vols.take(n as int) =~= vols);
    Ok(combined_img)
}

/// Reassembles a volume as `combine_slices` does, after testing what that
/// function asks of its caller: the result is `None` where a plane is
/// tagged with a position that is not below the number of planes.
pub fn checked_combine_slices(slices: &Vec<Slice3D>, axis: &Direction, reference: &Grid) -> (res:
    Option<Result<Grid, SliceError>>)
    ensures
        res is Some <==> tags_in_range(plane_views(slices@)),
        res matches Some(Ok(g)) ==> combine_outcome(
            plane_views(slices@),
            axis.axis(),
            reference@,
        ) == Ok::<GridView, SliceError>(g@),
        res matches Some(Err(e)) ==> combine_outcome(
            plane_views(slices@),
            axis.axis(),
            reference@,
        ) == Err::<GridView, SliceError>(e),
{
    if has_tags_in_range(slices) {
        Some(combine_slices(slices, axis, reference))
    } else {
        None
    }
}

/// Stacks volumes as `combine_volumes` does, after testing what that
/// function asks of its caller: the result is `None` where a volume is
/// tagged with a time that is not below the number of volumes, or where
/// the time series would be too large to allocate.
pub fn checked_combine_volumes(slices: &Vec<Slice3D>, reference: &Grid) -> (res: Option<
    Result<Grid, SliceError>,
>)
    ensures
        res is Some <==> tags_in_range(plane_views(slices@)) && (reference@.rank() == 3
            ==> allocatable(reference@.shape.push(slices.len()))),
        res matches Some(Ok(g)) ==> stack_outcome(plane_views(slices@), reference@) == Ok::<
            GridView,
            SliceError,
        >(g@),
        res matches Some(Err(e)) ==> stack_outcome(plane_views(slices@), reference@) == Err::<
            GridView,
            SliceError,
        >(e),
{
    if !has_tags_in_range(slices) {
        return None;
    }
    let mut shape = reference.shape();
    if shape.len() == 3 {
        shape.push(slices.len());
        if !fits(&shape) {
            return None;
        }
    }
    Some(combine_volumes(slices, reference))
}

} // verus!
