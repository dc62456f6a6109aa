//! Cutting a volume into planes along an axis.

use vstd::prelude::*;
use crate::common::Direction;
use crate::common::Slice3D;
use crate::common::TaggedView;
use crate::common::Vol3D;
use crate::error::SliceError;
use crate::grid::raw_concatenate;
use crate::grid::raw_index_axis;
use crate::grid::raw_insert_axis;
use crate::grid::Grid;
use crate::grid::GridView;
use crate::shape::allocatable;
use crate::shape::fits;
use crate::shape::in_box;
use crate::shape::lemma_box_remove;
use crate::shape::lemma_box_update;
use crate::shape::lemma_remove_then_insert;
use crate::shape::lemma_span_monotone;

verus! {

/// The plane at position `i` along `axis` of `v`: the cross-section there,
/// repeated `thickness` times along `axis`.
pub open spec fn plane_of(v: GridView, axis: int, i: int, thickness: usize) -> GridView {
    GridView::build(
        v.shape.update(axis, thickness),
        |idx: Seq<int>| v.cells[idx.update(axis, i)],
    )
}

/// All planes of `v` along `axis`, in order, each tagged with its position.
pub open spec fn planes_of(v: GridView, axis: int, thickness: usize) -> Seq<TaggedView> {
    Seq::new(
        v.shape[axis] as nat,
        |i: int| TaggedView { block: plane_of(v, axis, i, thickness), index: i as nat },
    )
}

/// The values of a sequence of planes.
pub open spec fn plane_views(planes: Seq<Slice3D>) -> Seq<TaggedView> {
    planes.map_values(|p: Slice3D| p@)
}

/// The values of a sequence of volumes.
pub open spec fn vol_views(vols: Seq<Vol3D>) -> Seq<TaggedView> {
    vols.map_values(|v: Vol3D| v@)
}

/// All volumes of a time series `v`, whose last of four axes is time.
pub open spec fn vols_of(v: GridView) -> Seq<TaggedView> {
    Seq::new(
        v.shape[3] as nat,
        |i: int| TaggedView { block: v.index_axis(3, i), index: i as nat },
    )
}

/// Taking a cross-section and putting its axis back gives the plane of
/// thickness one.
proof fn lemma_unit_plane(v: GridView, axis: int, i: int)
    requires
        0 <= axis < v.rank(),
        0 <= i < v.shape[axis],
    ensures
        v.index_axis(axis, i).insert_axis(axis) == plane_of(v, axis, i, 1),
{
    let cut = v.index_axis(axis, i);
    let left = cut.insert_axis(axis);
    let right = plane_of(v, axis, i, 1);
    lemma_remove_then_insert(v.shape, axis, 1usize);
    assert(left.shape == right.shape);
    assert forall|idx: Seq<int>| in_box(right.shape, idx) implies #[trigger] left.cells[idx]
        == right.cells[idx] by {
        lemma_box_remove(right.shape, idx, axis);
        assert(right.shape.remove(axis) =~= v.shape.remove(axis));
        lemma_remove_then_insert(idx, axis, i);
    }
    assert(left.cells =~= right.cells);
}

/// Adding one more copy to a plane of thickness `k` gives thickness `k + 1`.
proof fn lemma_thicken(v: GridView, axis: int, i: int, k: usize)
    requires
        0 <= axis < v.rank(),
        1 <= k < usize::MAX,
    ensures
        plane_of(v, axis, i, k).concatenate(plane_of(v, axis, i, 1), axis) == plane_of(
            v,
            axis,
            i,
            (k + 1) as usize,
        ),
{
    let thick = plane_of(v, axis, i, k);
    let unit = plane_of(v, axis, i, 1);
    let left = thick.concatenate(unit, axis);
    let right = plane_of(v, axis, i, (k + 1) as usize);
    assert(left.shape =~= right.shape);
    assert forall|idx: Seq<int>| in_box(right.shape, idx) implies #[trigger] left.cells[idx]
        == right.cells[idx] by {
        if idx[axis] < k {
            lemma_box_update(right.shape, idx, axis, k, idx[axis]);
            assert(idx.update(axis, idx[axis]) =~= idx);
            assert(right.shape.update(axis, k) =~= thick.shape);
        } else {
            let moved = idx.update(axis, idx[axis] - k);
            lemma_box_update(right.shape, idx, axis, 1usize, 0);
            assert(right.shape.update(axis, 1usize) =~= unit.shape);
            assert(moved.update(axis, i) =~= idx.update(axis, i));
        }
    }
    assert(left.cells =~= right.cells);
}

/// Cuts a volume into its planes along `axis`, each one cell thick.
///
/// A volume has exactly three axes; a block of another rank is refused. There
/// is one plane for each position along `axis`, in ascending order, and the
/// plane at position `i` is tagged `i`.
pub fn slice_array(img: &Grid, axis: &Direction) -> (res: Result<Vec<Slice3D>, SliceError>)
    ensures
        img@.rank() != 3 <==> res is Err,
        res is Err ==> res->Err_0 == SliceError::DimensionalityError,
        res is Ok ==> plane_views(res->Ok_0@) == planes_of(img@, axis.axis(), 1),
        res is Ok ==> res->Ok_0.len() == img@.shape[axis.axis()],
        res is Ok ==> forall|i: int|
            0 <= i < res->Ok_0.len() ==> {
                &&& (#[trigger] res->Ok_0[i]).index == i
                &&& res->Ok_0[i].slice@ == plane_of(img@, axis.axis(), i, 1)
            },
{
    let shape = img.shape();
    if shape.len() != 3 {
        return Err(SliceError::DimensionalityError);
    }
    let a = axis.to_usize();
    let end_index = shape[a];
    let mut slices: Vec<Slice3D> = Vec::new();
    let mut i: usize = 0;
    while i < end_index
        invariant
            shape@ == img@.shape,
            shape.len() == 3,
            a == axis.axis(),
            end_index == shape[a as int],
            i <= end_index,
            slices.len() == i,
            forall|k: int|
                0 <= k < i ==> (#[trigger] slices[k])@ == (TaggedView {
                    block: plane_of(img@, a as int, k, 1),
                    index: k as nat,
                }),
        decreases end_index - i,
    {
        let cut = raw_index_axis(img, a, i);
        proof {
            img@.shape.remove_ensures(a as int);
        }
        let block = raw_insert_axis(cut, a);
        proof {
            lemma_unit_plane(img@, a as int, i as int);
        }
        slices.push(Slice3D::new(block, i));
        i += 1;
    }
    assert(plane_views(slices@) =~= planes_of(img@, a as int, 1));
    Ok(slices)
}

/// Cuts a volume into its planes along `axis`, each plane being its
/// cross-section repeated `padding` times along `axis`.
///
/// With `padding` one this is `slice_array`. A thicker plane must itself be
/// a block that can be allocated.
pub fn slice_array_pad(img: &Grid, axis: &Direction, padding: usize) -> (res: Result<
    Vec<Slice3D>,
    SliceError,
>)
    requires
        padding_fits(img@.shape, axis.axis(), padding),
    ensures
        img@.rank() != 3 <==> res is Err,
        res is Err ==> res->Err_0 == SliceError::DimensionalityError,
        res is Ok ==> plane_views(res->Ok_0@) == planes_of(img@, axis.axis(), padding),
        res is Ok ==> res->Ok_0.len() == img@.shape[axis.axis()],
        res is Ok ==> forall|i: int|
            0 <= i < res->Ok_0.len() ==> {
                &&& (#[trigger] res->Ok_0[i]).index == i
                &&& res->Ok_0[i].slice@ == plane_of(img@, axis.axis(), i, padding)
            },
{
    let shape = img.shape();
    if shape.len() != 3 {
        return Err(SliceError::DimensionalityError);
    }
    let a = axis.to_usize();
    let end_index = shape[a];
    let mut slices: Vec<Slice3D> = Vec::new();
    let mut i: usize = 0;
    while i < end_index
        invariant
            shape@ == img@.shape,
            shape.len() == 3,
            a == axis.axis(),
            end_index == shape[a as int],
            i <= end_index,
            padding >= 1,
            end_index > 0 && padding > 1 ==> allocatable(img@.shape.update(a as int, padding)),
            slices.len() == i,
            forall|k: int|
                0 <= k < i ==> (#[trigger] slices[k])@ == (TaggedView {
                    block: plane_of(img@, a as int, k, padding),
                    index: k as nat,
                }),
        decreases end_index - i,
    {
        let cut = raw_index_axis(img, a, i);
        proof {
            img@.shape.remove_ensures(a as int);
        }
        let unit = raw_insert_axis(cut, a);
        proof {
            lemma_unit_plane(img@, a as int, i as int);
        }
        if padding == 1 {
            slices.push(Slice3D::new(unit, i));
        } else {
            proof {
                assert(unit@.joined_shape(unit@.shape, a as int) =~= img@.shape.update(
                    a as int,
                    2usize,
                ));
                lemma_span_monotone(img@.shape, a as int, 2, padding);
                lemma_thicken(img@, a as int, i as int, 1);
            }
            let mut stacks = raw_concatenate(a, &unit, &unit);
            let mut copies: usize = 2;
            while copies < padding
                invariant
                    img@.rank() == 3,
                    0 <= a < 3,
                    2 <= copies <= padding,
                    allocatable(img@.shape.update(a as int, padding)),
                    unit@ == plane_of(img@, a as int, i as int, 1),
                    stacks@ == plane_of(img@, a as int, i as int, copies),
                decreases padding - copies,
            {
                proof {
                    let grown = (copies + 1) as usize;
                    assert(stacks@.joined_shape(unit@.shape, a as int) =~= img@.shape.update(
                        a as int,
                        grown,
                    ));
                    lemma_span_monotone(img@.shape, a as int, grown, padding);
                    lemma_thicken(img@, a as int, i as int, copies);
                }
                stacks = raw_concatenate(a, &stacks, &unit);
                copies += 1;
            }
            slices.push(Slice3D::new(stacks, i));
        }
        i += 1;
    }
    assert(plane_views(slices@) =~= planes_of(img@, a as int, padding));
    Ok(slices)
}

/// Whether planes of `padding` copies can be cut from a volume of `shape`
/// along `axis`: there is at least one copy, and a plane thicker than one
/// cell is a block that can be allocated.
pub open spec fn padding_fits(shape: Seq<usize>, axis: int, padding: usize) -> bool {
    &&& padding >= 1
    &&& shape.len() == 3 && shape[axis] > 0 && padding > 1 ==> allocatable(
        shape.update(axis, padding),
    )
}

/// Cuts a volume into padded planes as `slice_array_pad` does, after
/// testing what that function asks of its caller: the result is `None`
/// where `padding` is zero or a plane would be too large to allocate.
pub fn checked_slice_array_pad(img: &Grid, axis: &Direction, padding: usize) -> (res: Option<
    Result<Vec<Slice3D>, SliceError>,
>)
    ensures
        res is Some <==> padding_fits(img@.shape, axis.axis(), padding),
        res is Some ==> (img@.rank() != 3 <==> res->0 is Err),
        res is Some && res->0 is Err ==> res->0->Err_0 == SliceError::DimensionalityError,
        res is Some && res->0 is Ok ==> plane_views(res->0->Ok_0@) == planes_of(
            img@,
            axis.axis(),
            padding,
        ),
{
    if padding < 1 {
        return None;
    }
    let mut shape = img.shape();
    let a = axis.to_usize();
    if shape.len() == 3 && shape[a] > 0 && padding > 1 {
        shape.set(a, padding);
        if !fits(&shape) {
            return None;
        }
    }
    Some(slice_array_pad(img, axis, padding))
}

/// Splits a time series into its volumes.
///
/// A time series has exactly four axes, the last being time; a block of
/// another rank is refused. There is one volume for each point in time, in
/// ascending order, and the volume at time `i` is tagged `i`.
pub fn split_vols(img: &Grid) -> (res: Result<Vec<Vol3D>, SliceError>)
    ensures
        img@.rank() != 4 <==> res is Err,
        res is Err ==> res->Err_0 == SliceError::DimensionalityError,
        res is Ok ==> vol_views(res->Ok_0@) == vols_of(img@),
        res is Ok ==> res->Ok_0.len() == img@.shape[3],
        res is Ok ==> forall|i: int|
            0 <= i < res->Ok_0.len() ==> {
                &&& (#[trigger] res->Ok_0[i]).index == i
                &&& res->Ok_0[i].vol@ == img@.index_axis(3, i)
            },
{
    let shape = img.shape();
    if shape.len() != 4 {
        return Err(SliceError::DimensionalityError);
    }
    let end_index = shape[3];
    let mut vols: Vec<Vol3D> = Vec::new();
    let mut i: usize = 0;
    while i < end_index
        invariant
            shape@ == img@.shape,
            shape.len() == 4,
            end_index == shape[3],
            i <= end_index,
            vols.len() == i,
            forall|k: int|
                0 <= k < i ==> (#[trigger] vols[k])@ == (TaggedView {
                    block: img@.index_axis(3, k),
                    index: k as nat,
                }),
        decreases end_index - i,
    {
        let vol = raw_index_axis(img, 3, i);
        vols.push(Vol3D::new(vol, i));
        i += 1;
    }
    assert(vol_views(vols@) =~= vols_of(img@));
    Ok(vols)
}

} // verus!
