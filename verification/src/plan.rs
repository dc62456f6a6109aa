//! The decisions that a run takes before it touches any data.

use vstd::prelude::*;
use crate::common::Direction;
use crate::error::SliceError;

verus! {

/// The axis along which blocks are put together: a spatial axis for planes,
/// or time for whole volumes.
#[derive(Debug, Clone, Copy, PartialEq, Eq, Structural)]
pub enum StackAxis {
    Space(Direction),
    Time,
}

/// What is cut out of a scan.
#[derive(Debug, Clone, Copy, PartialEq, Eq, Structural)]
pub enum SliceMode {
    /// A volume is cut into planes.
    Planes,
    /// A time series is split into volumes.
    Volumes,
}

/// What a scan with `ndim` axes is cut into: a volume has three axes and a
/// time series four; anything else cannot be cut.
pub fn slicing_mode(ndim: usize) -> (res: Result<SliceMode, SliceError>)
    ensures
        res == if ndim == 3 {
            Ok::<SliceMode, SliceError>(SliceMode::Planes)
        } else if ndim == 4 {
            Ok::<SliceMode, SliceError>(SliceMode::Volumes)
        } else {
            Err::<SliceMode, SliceError>(SliceError::DimensionalityError)
        },
{
    if ndim == 3 {
        Ok(SliceMode::Planes)
    } else if ndim == 4 {
        Ok(SliceMode::Volumes)
    } else {
        Err(SliceError::DimensionalityError)
    }
}

/// Whether a guess speaks against the axis that was asked for.
pub open spec fn contradicts(guessed: Option<Direction>, axis: Direction) -> bool {
    guessed is Some && guessed->0 != axis
}

/// The axis along which a volume is cut, and whether to warn.
///
/// A selector of 0, 1 or 2 names the axis; the warning then says that the
/// guess names another. Any other selector leaves the choice to the guess,
/// and without a guess there is no axis.
pub fn choose_slice_axis(selector: usize, guessed: Option<Direction>) -> (res: Result<
    (Direction, bool),
    SliceError,
>)
    ensures
        res is Err <==> selector >= 3 && guessed is None,
        res is Err ==> res->Err_0 == SliceError::UndeterminedAxis,
        res is Ok && selector < 3 ==> res->Ok_0.0.axis() == selector && res->Ok_0.1 == contradicts(
            guessed,
            res->Ok_0.0,
        ),
        res is Ok && selector >= 3 ==> res->Ok_0 == (guessed->0, false),
{
    match Direction::from_usize(selector) {
        Some(axis) => {
            let warn = match guessed {
                Some(g) => g != axis,
                None => false,
            };
            Ok((axis, warn))
        },
        None => match guessed {
            Some(g) => Ok((g, false)),
            None => Err(SliceError::UndeterminedAxis),
        },
    }
}

/// The axis along which blocks are put together, and whether to warn.
///
/// A selector of 0, 1 or 2 names a spatial axis and 3 names time; the
/// warning then says that the guess names another axis. Any other selector
/// leaves the choice to the guess; without a guess the blocks are taken to
/// be volumes in time, with a warning.
pub fn choose_combine_axis(selector: usize, guessed: Option<Direction>) -> (res: (StackAxis, bool))
    ensures
        selector < 3 ==> res.0 is Space && res.0->Space_0.axis() == selector && res.1 == contradicts(
            guessed,
            res.0->Space_0,
        ),
        selector == 3 ==> res == (StackAxis::Time, guessed is Some),
        selector > 3 && guessed is Some ==> res == (StackAxis::Space(guessed->0), false),
        selector > 3 && guessed is None ==> res == (StackAxis::Time, true),
{
    match Direction::from_usize(selector) {
        Some(axis) => {
            let warn = match guessed {
                Some(g) => g != axis,
                None => false,
            };
            (StackAxis::Space(axis), warn)
        },
        None => {
            if selector == 3 {
                (StackAxis::Time, guessed.is_some())
            } else {
                match guessed {
                    Some(g) => (StackAxis::Space(g), false),
                    None => (StackAxis::Time, true),
                }
            }
        },
    }
}

/// What stands in the way of combining, from what is on disk: the first of
/// a missing input directory, an input that is not a directory, an output
/// file that is already there, and a missing reference file.
pub open spec fn preflight_outcome(
    input_exists: bool,
    input_is_dir: bool,
    output_exists: bool,
    reference_exists: bool,
) -> Result<(), SliceError> {
    if !input_exists {
        Err(SliceError::InputNotFound)
    } else if !input_is_dir {
        Err(SliceError::NotADirectory)
    } else if output_exists {
        Err(SliceError::OutputAlreadyExists)
    } else if !reference_exists {
        Err(SliceError::InputNotFound)
    } else {
        Ok(())
    }
}

/// Whether combining can start, from what is on disk. Nothing is
/// overwritten: an output file that exists ends the run.
pub fn combiner_preflight(
    input_exists: bool,
    input_is_dir: bool,
    output_exists: bool,
    reference_exists: bool,
) -> (res: Result<(), SliceError>)
    ensures
        res == preflight_outcome(input_exists, input_is_dir, output_exists, reference_exists),
{
    if !input_exists {
        Err(SliceError::InputNotFound)
    } else if !input_is_dir {
        Err(SliceError::NotADirectory)
    } else if output_exists {
        Err(SliceError::OutputAlreadyExists)
    } else if !reference_exists {
        Err(SliceError::InputNotFound)
    } else {
        Ok(())
    }
}

/// Whether there is anything to combine: a search that found no plane file
/// ends the run.
pub fn require_planes(found: usize) -> (res: Result<(), SliceError>)
    ensures
        res == if found == 0 {
            Err::<(), SliceError>(SliceError::InputNotFound)
        } else {
            Ok::<(), SliceError>(())
        },
{
    if found == 0 {
        Err(SliceError::InputNotFound)
    } else {
        Ok(())
    }
}

} // verus!
