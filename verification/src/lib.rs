//! Slicing of volumetric scans into planes along an axis, and reassembly of
//! such planes into a volume.
//!
//! A scan is a rectangular block of samples, a [`grid::Grid`]. A volume has
//! three axes and a time series four. [`slicing`] cuts a volume into one
//! plane for each position along an axis, each plane tagged with its
//! position, and [`combining`] writes tagged planes back into a volume of
//! the shape of a reference. [`laws`] states what the two have in common:
//! cutting and combining gives the volume back, padding does not change what
//! comes back, and the order of the planes does not matter.
//!
//! Around this, [`guess`] tells along which axis a set of planes was cut,
//! [`naming`] names the file of each plane and orders files that are read
//! back, [`affine`] places a plane's transform, and [`plan`] holds the
//! decisions that a run takes before it touches any data.
//!
//! Samples are carried as 64-bit patterns and the entries of a transform as
//! values of any type that can be copied: the library moves them and never
//! computes with them.

pub mod affine;
pub mod combining;
pub mod common;
pub mod error;
pub mod grid;
pub mod guess;
pub mod laws;
pub mod naming;
pub mod order_laws;
pub mod plan;
pub mod shape;
pub mod slicing;
