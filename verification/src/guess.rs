//! Guessing the axis along which a set of planes was cut.

use vstd::prelude::*;
use crate::common::Direction;
use crate::error::SliceError;

verus! {

/// One point where the condition holds, none where it does not.
pub open spec fn point(b: bool) -> nat {
    if b {
        1
    } else {
        0
    }
}

/// The points of each axis when planes of shape `plane` are held against a
/// reference of shape `reference`: one point where the plane is shorter
/// than the reference, and one more where `voxel_larger` says that the
/// voxel is larger along that axis.
pub open spec fn reference_scores(
    plane: Seq<usize>,
    reference: Seq<usize>,
    voxel_larger: Seq<bool>,
) -> Seq<u8> {
    Seq::new(3, |i: int| (point(plane[i] < reference[i]) + point(voxel_larger[i])) as u8)
}

/// The points of axis `i` of a volume with axis lengths `dims`, held against
/// its other two axes: for each of them one point if the volume is shorter
/// along `i`, and one more if `voxel_larger[i]` says that the voxel is larger
/// along `i`.
pub open spec fn pairwise_score(dims: Seq<u16>, voxel_larger: Seq<[bool; 3]>, i: int) -> nat {
    let j = (i + 1) % 3;
    let k = (i + 2) % 3;
    point(dims[i] < dims[j]) + point(voxel_larger[i]@[j]) + point(dims[i] < dims[k]) + point(
        voxel_larger[i]@[k],
    )
}

/// The points of the three axes of a volume, each held against the other two.
pub open spec fn pairwise_scores(dims: Seq<u16>, voxel_larger: Seq<[bool; 3]>) -> Seq<u8> {
    Seq::new(3, |i: int| pairwise_score(dims, voxel_larger, i) as u8)
}

/// The axis that the points speak for: the one with the most points, and of
/// several with the most the first. Where all three have the same number of
/// points, they speak for none.
pub open spec fn picked(scores: Seq<u8>) -> Result<Direction, SliceError> {
    if scores[0] == scores[1] && scores[1] == scores[2] {
        Err(SliceError::UndeterminedAxis)
    } else if scores[0] >= scores[1] && scores[0] >= scores[2] {
        Ok(Direction::X)
    } else if scores[1] >= scores[2] {
        Ok(Direction::Y)
    } else {
        Ok(Direction::Z)
    }
}

/// What guessing from the two shapes comes to: nothing can be said of
/// shapes that do not have three axes.
pub open spec fn guessed(plane: Seq<usize>, reference: Seq<usize>, voxel_larger: Seq<bool>) -> Result<
    Direction,
    SliceError,
> {
    if plane.len() != 3 || reference.len() != 3 {
        Err(SliceError::DimensionalityError)
    } else {
        picked(reference_scores(plane, reference, voxel_larger))
    }
}

/// Picks the axis with the most points; of several with the most, the first.
/// Fails where all three axes have the same number of points.
pub fn pick_axis(scores: [u8; 3]) -> (res: Result<Direction, SliceError>)
    ensures
        res == picked(scores@),
        res is Err <==> scores@[0] == scores@[1] && scores@[1] == scores@[2],
        res is Ok ==> forall|j: int|
            0 <= j < 3 ==> #[trigger] scores@[j] <= scores@[res->Ok_0.axis()],
        res is Ok ==> forall|j: int|
            0 <= j < res->Ok_0.axis() ==> #[trigger] scores@[j] < scores@[res->Ok_0.axis()],
{
    if scores[0] == scores[1] && scores[1] == scores[2] {
        Err(SliceError::UndeterminedAxis)
    } else if scores[0] >= scores[1] && scores[0] >= scores[2] {
        Ok(Direction::X)
    } else if scores[1] >= scores[2] {
        Ok(Direction::Y)
    } else {
        Ok(Direction::Z)
    }
}

fn one_if(b: bool) -> (p: u8)
    ensures
        p == point(b),
{
    if b {
        1
    } else {
        0
    }
}

/// The points of each axis when planes of shape `slice_dims` are held
/// against a reference of shape `ref_dims`. An axis along which the planes
/// were cut is shorter in the planes than in the reference. Each entry of
/// `voxel_larger` that is set gives its axis one more point.
pub fn axis_scores(slice_dims: &Vec<usize>, ref_dims: &Vec<usize>, voxel_larger: [bool; 3]) -> (res:
    Result<[u8; 3], SliceError>)
    ensures
        res is Err <==> slice_dims.len() != 3 || ref_dims.len() != 3,
        res is Err ==> res->Err_0 == SliceError::DimensionalityError,
        res is Ok ==> res->Ok_0@ == reference_scores(slice_dims@, ref_dims@, voxel_larger@),
{
    if slice_dims.len() != 3 || ref_dims.len() != 3 {
        return Err(SliceError::DimensionalityError);
    }
    let scores = [
        one_if(slice_dims[0] < ref_dims[0]) + one_if(voxel_larger[0]),
        one_if(slice_dims[1] < ref_dims[1]) + one_if(voxel_larger[1]),
        one_if(slice_dims[2] < ref_dims[2]) + one_if(voxel_larger[2]),
    ];
    assert(scores@ =~= reference_scores(slice_dims@, ref_dims@, voxel_larger@));
    Ok(scores)
}

/// Guesses the axis along which planes of shape `slice_dims` were cut from a
/// volume of shape `ref_dims`, from the shapes alone.
pub fn guess_dir(slice_dims: &Vec<usize>, ref_dims: &Vec<usize>) -> (res: Result<
    Direction,
    SliceError,
>)
    ensures
        res == guessed(slice_dims@, ref_dims@, seq![false, false, false]),
{
    let none = [false, false, false];
    assert(none@ =~= seq![false, false, false]);
    match axis_scores(slice_dims, ref_dims, none) {
        Ok(scores) => pick_axis(scores),
        Err(e) => Err(e),
    }
}

/// Guesses the axis from the shapes and from the voxel sizes: each entry of
/// `voxel_larger` that is set gives its axis one more point.
pub fn guess_dir_with_voxels(
    slice_dims: &Vec<usize>,
    ref_dims: &Vec<usize>,
    voxel_larger: [bool; 3],
) -> (res: Result<Direction, SliceError>)
    ensures
        res == guessed(slice_dims@, ref_dims@, voxel_larger@),
{
    match axis_scores(slice_dims, ref_dims, voxel_larger) {
        Ok(scores) => pick_axis(scores),
        Err(e) => Err(e),
    }
}

/// The points of the three spatial axes of a volume, from its header alone:
/// `dim[1]`, `dim[2]` and `dim[3]` are the lengths of the axes, and
/// `voxel_larger[i][j]` says whether the voxel is larger along axis `i` than
/// along axis `j`. An axis gets a point for each other axis that is longer,
/// and a point for each other axis with a smaller voxel.
pub fn header_scores(dim: [u16; 8], voxel_larger: [[bool; 3]; 3]) -> (scores: [u8; 3])
    ensures
        scores@ == pairwise_scores(dim@.subrange(1, 4), voxel_larger@),
{
    let ghost dims = dim@.subrange(1, 4);
    let x = dim[1];
    let y = dim[2];
    let z = dim[3];
    assert(dims[0] == x && dims[1] == y && dims[2] == z);
    let sx = one_if(x < y) + one_if(voxel_larger[0][1]) + one_if(x < z) + one_if(
        voxel_larger[0][2],
    );
    let sy = one_if(y < z) + one_if(voxel_larger[1][2]) + one_if(y < x) + one_if(
        voxel_larger[1][0],
    );
    let sz = one_if(z < x) + one_if(voxel_larger[2][0]) + one_if(z < y) + one_if(
        voxel_larger[2][1],
    );
    let scores = [sx, sy, sz];
    assert(scores@ =~= pairwise_scores(dims, voxel_larger@));
    scores
}

/// Guesses the axis along which a volume is to be cut, from its header alone.
pub fn guess_dir_from_header(dim: [u16; 8], voxel_larger: [[bool; 3]; 3]) -> (res: Result<
    Direction,
    SliceError,
>)
    ensures
        res == picked(pairwise_scores(dim@.subrange(1, 4), voxel_larger@)),
{
    pick_axis(header_scores(dim, voxel_larger))
}

} // verus!
