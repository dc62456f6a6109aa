//! The ways in which slicing and reassembly can fail.

use vstd::prelude::*;

verus! {

/// Why a run was given up. Every error is final: nothing is retried and no
/// partial result is kept.
#[derive(Debug, Clone, Copy, PartialEq, Eq, Structural)]
pub enum SliceError {
    /// An input directory or file does not exist, or no plane file was found.
    InputNotFound,
    /// The input path exists but is not a directory.
    NotADirectory,
    /// A block does not have the number of axes, or the cross-section, that
    /// the operation needs.
    DimensionalityError,
    /// The number of planes differs from the reference's extent along the axis.
    CountMismatchError,
    /// The planes do not tell along which axis they were cut.
    UndeterminedAxis,
    /// The transform from voxel indices to world coordinates has no inverse.
    SingularTransformError,
    /// The output file is already there and is not overwritten.
    OutputAlreadyExists,
}

impl SliceError {
    /// A sentence for the user.
    pub fn message(&self) -> (s: &'static str)
        ensures
            s@ == match *self {
                SliceError::InputNotFound => "input not found"@,
                SliceError::NotADirectory => "input is not a directory"@,
                SliceError::DimensionalityError => "wrong number of dimensions"@,
                SliceError::CountMismatchError => "number of slices does not match reference image"@,
                SliceError::UndeterminedAxis => "could not determine the slice axis"@,
                SliceError::SingularTransformError => "affine transform is not invertible"@,
                SliceError::OutputAlreadyExists => "output file already exists"@,
            },
    {
        match self {
            SliceError::InputNotFound => "input not found",
            SliceError::NotADirectory => "input is not a directory",
            SliceError::DimensionalityError => "wrong number of dimensions",
            SliceError::CountMismatchError => "number of slices does not match reference image",
            SliceError::UndeterminedAxis => "could not determine the slice axis",
            SliceError::SingularTransformError => "affine transform is not invertible",
            SliceError::OutputAlreadyExists => "output file already exists",
        }
    }
}

} // verus!
