//! The transform from voxel indices to world coordinates, as far as it can
//! be handled without arithmetic on its entries.
//!
//! A transform is a 4 by 4 matrix, given as four rows. The entries are of
//! any type that can be copied: nothing here computes with them.

use vstd::prelude::*;
use crate::common::Direction;
use crate::error::SliceError;

verus! {

/// The entry of `affine` at row `i` and column `j` after its translation,
/// the first three rows of the last column, has been replaced by the first
/// three entries of `position`.
pub open spec fn moved_entry<T>(affine: [[T; 4]; 4], position: [T; 4], i: int, j: int) -> T {
    if i < 3 && j == 3 {
        position@[i]
    } else {
        affine@[i]@[j]
    }
}

/// Whether `moved` is `affine` with its translation replaced by `position`.
pub open spec fn is_moved<T>(moved: [[T; 4]; 4], affine: [[T; 4]; 4], position: [T; 4]) -> bool {
    forall|i: int, j: int|
        0 <= i < 4 && 0 <= j < 4 ==> #[trigger] moved@[i]@[j] == moved_entry(affine, position, i, j)
}

/// The point that lies `offset` along `axis` and at `zero` along the other
/// two axes, in homogeneous coordinates: its fourth entry is `one`.
pub fn axis_point<T: Copy>(axis: &Direction, offset: T, zero: T, one: T) -> (point: [T; 4])
    ensures
        point@[3] == one,
        forall|i: int|
            0 <= i < 3 ==> #[trigger] point@[i] == if i == axis.axis() {
                offset
            } else {
                zero
            },
{
    match axis {
        Direction::X => [offset, zero, zero, one],
        Direction::Y => [zero, offset, zero, one],
        Direction::Z => [zero, zero, offset, one],
    }
}

/// `affine` with its translation replaced by the first three entries of
/// `position`. The linear part and the last row stay as they are.
pub fn with_translation<T: Copy>(affine: &[[T; 4]; 4], position: &[T; 4]) -> (moved: [[T; 4]; 4])
    ensures
        is_moved(moved, *affine, *position),
{
    let moved = [
        [affine[0][0], affine[0][1], affine[0][2], position[0]],
        [affine[1][0], affine[1][1], affine[1][2], position[1]],
        [affine[2][0], affine[2][1], affine[2][2], position[2]],
        [affine[3][0], affine[3][1], affine[3][2], affine[3][3]],
    ];
    assert forall|i: int, j: int| 0 <= i < 4 && 0 <= j < 4 implies #[trigger] moved@[i]@[j]
        == moved_entry(*affine, *position, i, j) by {
        if i == 0 {
        } else if i == 1 {
        } else if i == 2 {
        } else {
        }
    }
    moved
}

/// The transform of one plane. `voxel_position` is the place of the plane
/// in voxel space, found by applying the inverse of `affine` to the plane's
/// point in world space; it is missing where `affine` has no inverse, and
/// then there is no transform for the plane.
pub fn slice_affine<T: Copy>(affine: &[[T; 4]; 4], voxel_position: Option<[T; 4]>) -> (res: Result<
    [[T; 4]; 4],
    SliceError,
>)
    ensures
        voxel_position is None <==> res is Err,
        res is Err ==> res->Err_0 == SliceError::SingularTransformError,
        res is Ok ==> is_moved(res->Ok_0, *affine, voxel_position->0),
{
    match voxel_position {
        Some(position) => Ok(with_translation(affine, &position)),
        None => Err(SliceError::SingularTransformError),
    }
}

} // verus!
