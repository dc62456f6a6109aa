//! A rectangular block of samples, kept in an `ndarray` array of dynamic rank.
//!
//! Samples are carried as 64-bit patterns. Nothing here computes with a
//! sample: cells are copied from one block to another, bit for bit.

use vstd::prelude::*;
use crate::shape::in_box;
use crate::shape::as_index;
use crate::shape::allocatable;
use crate::shape::contains;
use crate::shape::fits;

verus! {

/// A rectangular block of 64-bit samples with any number of axes.
///
/// The block is held in an `ndarray` array and is opaque to the verifier.
/// What it holds is named by [`grid_shape`] and [`grid_cells`], and the
/// functions below that reach into the array say what they do in terms of
/// these two.
#[verifier::external_body]
#[derive(Debug)]
pub struct Grid {
    cells: ndarray::ArrayD<u64>,
}

/// The length of each axis of a grid, first axis first.
pub uninterp spec fn grid_shape(g: Grid) -> Seq<usize>;

/// The sample at each index of a grid. An index has one coordinate per axis.
pub uninterp spec fn grid_cells(g: Grid) -> Map<Seq<int>, u64>;

/// The mathematical value of a grid: its shape and its cells.
pub struct GridView {
    pub shape: Seq<usize>,
    pub cells: Map<Seq<int>, u64>,
}

impl GridView {
    /// A block of `shape` whose cell at `idx` is `f(idx)`.
    pub open spec fn build(shape: Seq<usize>, f: spec_fn(Seq<int>) -> u64) -> GridView {
        GridView { shape, cells: Map::new(|idx: Seq<int>| in_box(shape, idx), f) }
    }

    /// The cells are defined exactly at the indices inside the shape.
    pub open spec fn wf(self) -> bool {
        self.cells.dom() =~= Set::new(|idx: Seq<int>| in_box(self.shape, idx))
    }

    /// The number of axes.
    pub open spec fn rank(self) -> nat {
        self.shape.len()
    }

    /// A block of `shape` filled with zero.
    pub open spec fn zeros(shape: Seq<usize>) -> GridView {
        GridView::build(shape, |idx: Seq<int>| 0u64)
    }

    /// The cross-section at position `i` along `axis`, with that axis removed.
    pub open spec fn index_axis(self, axis: int, i: int) -> GridView {
        GridView::build(self.shape.remove(axis), |idx: Seq<int>| self.cells[idx.insert(axis, i)])
    }

    /// The same cells with an axis of length one put in at `axis`.
    pub open spec fn insert_axis(self, axis: int) -> GridView {
        GridView::build(
            self.shape.insert(axis, 1usize),
            |idx: Seq<int>| self.cells[idx.remove(axis)],
        )
    }

    /// The shape of `self` followed along `axis` by a block of `other_shape`.
    pub open spec fn joined_shape(self, other_shape: Seq<usize>, axis: int) -> Seq<usize> {
        self.shape.update(axis, (self.shape[axis] + other_shape[axis]) as usize)
    }

    /// `self` followed by `other` along `axis`.
    pub open spec fn concatenate(self, other: GridView, axis: int) -> GridView {
        GridView::build(
            self.joined_shape(other.shape, axis),
            |idx: Seq<int>|
                if idx[axis] < self.shape[axis] {
                    self.cells[idx]
                } else {
                    other.cells[idx.update(axis, idx[axis] - self.shape[axis])]
                },
        )
    }

    /// `self` with the cross-section at position `i` along `axis` replaced by `src`.
    pub open spec fn assign_axis(self, axis: int, i: int, src: GridView) -> GridView {
        GridView::build(
            self.shape,
            |idx: Seq<int>|
                if idx[axis] == i {
                    src.cells[idx.remove(axis)]
                } else {
                    self.cells[idx]
                },
        )
    }

    /// `self` with the cell at `idx` replaced by `value`.
    pub open spec fn with_cell(self, idx: Seq<int>, value: u64) -> GridView {
        GridView { shape: self.shape, cells: self.cells.insert(idx, value) }
    }
}

impl View for Grid {
    type V = GridView;

    /// The shape of the grid, and its cells at the indices inside the shape.
    open spec fn view(&self) -> GridView {
        GridView::build(grid_shape(*self), |idx: Seq<int>| grid_cells(*self)[idx])
    }
}

/// The value of a grid has its cells exactly at the indices inside its shape.
pub proof fn lemma_view_wf(g: Grid)
    ensures
        g@.wf(),
{
}

/// Calls `ArrayBase::shape` and copies the slice out: the axis lengths of the
/// array.
#[verifier::external_body]
pub(crate) fn raw_shape(g: &Grid) -> (r: Vec<usize>)
    ensures
        r@ == grid_shape(*g),
{
    g.cells.shape().to_vec()
}

/// Calls `ArrayBase::zeros` with a dynamic dimension made from `shape`: an
/// array of that shape with every cell zero. `zeros` panics when the product
/// of the non-zero axis lengths exceeds `isize::MAX`, and the buffer it fills
/// cannot exceed `isize::MAX` bytes.
#[verifier::external_body]
pub(crate) fn raw_zeros(shape: &Vec<usize>) -> (r: Grid)
    requires
        allocatable(shape@),
    ensures
        r@ == GridView::zeros(shape@),
{
    Grid { cells: ndarray::ArrayD::zeros(ndarray::IxDyn(&shape[..])) }
}

/// Calls `ArrayBase::zeros` with the dimension of an array that exists
/// (`ArrayBase::raw_dim`): an array of the same shape with every cell zero.
/// An array of that shape has been allocated before, so `zeros` does not
/// panic.
#[verifier::external_body]
pub(crate) fn raw_zeros_like(g: &Grid) -> (r: Grid)
    ensures
        r@ == GridView::zeros(grid_shape(*g)),
{
    Grid { cells: ndarray::ArrayD::zeros(g.cells.raw_dim()) }
}

/// Calls `ArrayRef::index_axis` and copies the view into an owned array: the
/// cells at position `i` along `axis`, with that axis removed. `index_axis`
/// panics when `axis` or `i` is out of bounds.
#[verifier::external_body]
pub(crate) fn raw_index_axis(g: &Grid, axis: usize, i: usize) -> (r: Grid)
    requires
        axis < grid_shape(*g).len(),
        i < grid_shape(*g)[axis as int],
    ensures
        r@ == g@.index_axis(axis as int, i as int),
{
    Grid { cells: g.cells.index_axis(ndarray::Axis(axis), i).to_owned() }
}

/// Calls `ArrayBase::insert_axis`: the same cells, with a new axis of length
/// one at `axis`. It panics when `axis` is greater than the number of axes.
#[verifier::external_body]
pub(crate) fn raw_insert_axis(g: Grid, axis: usize) -> (r: Grid)
    requires
        axis <= grid_shape(g).len(),
    ensures
        r@ == g@.insert_axis(axis as int),
{
    Grid { cells: g.cells.insert_axis(ndarray::Axis(axis)) }
}

/// Calls `ndarray::concatenate` on the views of two arrays and unwraps the
/// result: `a` followed by `b` along `axis`. `concatenate` fails when `axis`
/// is out of bounds, when the shapes differ on another axis or when the
/// result is too large to represent.
#[verifier::external_body]
pub(crate) fn raw_concatenate(axis: usize, a: &Grid, b: &Grid) -> (r: Grid)
    requires
        axis < grid_shape(*a).len(),
        grid_shape(*a).len() == grid_shape(*b).len(),
        forall|d: int|
            0 <= d < grid_shape(*a).len() && d != axis ==> grid_shape(*a)[d] == grid_shape(*b)[d],
        grid_shape(*a)[axis as int] + grid_shape(*b)[axis as int] <= usize::MAX,
        allocatable(a@.joined_shape(grid_shape(*b), axis as int)),
    ensures
        r@ == a@.concatenate(b@, axis as int),
{
    Grid {
        cells: ndarray::concatenate(ndarray::Axis(axis), &[a.cells.view(), b.cells.view()]).unwrap(),
    }
}

/// Calls `ArrayRef::index_axis_mut` and, on the view that it gives,
/// `ArrayRef::assign`: the cells at position `i` along `axis` become those
/// of `src`, all others stay. `index_axis_mut` panics when `axis` or `i` is
/// out of bounds; `assign` broadcasts a source of another shape, or panics
/// where it cannot, and both are left out here.
#[verifier::external_body]
pub(crate) fn raw_assign_axis(dst: &mut Grid, axis: usize, i: usize, src: &Grid)
    requires
        axis < grid_shape(*old(dst)).len(),
        i < grid_shape(*old(dst))[axis as int],
        grid_shape(*src) == grid_shape(*old(dst)).remove(axis as int),
    ensures
        final(dst)@ == old(dst)@.assign_axis(axis as int, i as int, src@),
{
    dst.cells.index_axis_mut(ndarray::Axis(axis), i).assign(&src.cells);
}

/// Indexes the array (`Index::index` of `ArrayBase`) with a slice of
/// coordinates: the cell at `idx`. Indexing panics when `idx` is out of
/// bounds.
#[verifier::external_body]
pub(crate) fn raw_cell(g: &Grid, idx: &Vec<usize>) -> (r: u64)
    requires
        in_box(grid_shape(*g), as_index(idx@)),
    ensures
        r == grid_cells(*g)[as_index(idx@)],
{
    g.cells[&idx[..]]
}

/// Assigns through a mutable index (`IndexMut::index_mut` of `ArrayBase`)
/// with a slice of coordinates: the cell at `idx` becomes `value`, all
/// others stay. Indexing panics when `idx` is out of bounds.
#[verifier::external_body]
pub(crate) fn raw_set_cell(g: &mut Grid, idx: &Vec<usize>, value: u64)
    requires
        in_box(grid_shape(*old(g)), as_index(idx@)),
    ensures
        final(g)@ == old(g)@.with_cell(as_index(idx@), value),
{
    g.cells[&idx[..]] = value;
}

impl Grid {
    /// The length of each axis, first axis first.
    pub fn shape(&self) -> (r: Vec<usize>)
        ensures
            r@ == self@.shape,
    {
        raw_shape(self)
    }

    /// The number of axes.
    pub fn ndim(&self) -> (n: usize)
        ensures
            n == self@.rank(),
    {
        raw_shape(self).len()
    }

    /// A block of `shape` filled with zero, unless a block of that shape
    /// cannot be allocated.
    pub fn zeros(shape: &Vec<usize>) -> (r: Option<Grid>)
        ensures
            r is Some <==> allocatable(shape@),
            r is Some ==> r->0@ == GridView::zeros(shape@),
    {
        if fits(shape) {
            Some(raw_zeros(shape))
        } else {
            None
        }
    }

    /// The cell at `idx`, if `idx` lies inside the block.
    pub fn get(&self, idx: &Vec<usize>) -> (r: Option<u64>)
        ensures
            r == if in_box(self@.shape, as_index(idx@)) {
                Some(self@.cells[as_index(idx@)])
            } else {
                None
            },
    {
        let shape = raw_shape(self);
        if contains(&shape, idx) {
            Some(raw_cell(self, idx))
        } else {
            None
        }
    }

    /// Writes `value` at `idx` and says whether it did: an index outside the
    /// block leaves the block as it is.
    pub fn set(&mut self, idx: &Vec<usize>, value: u64) -> (done: bool)
        ensures
            done == in_box(old(self)@.shape, as_index(idx@)),
            done ==> final(self)@ == old(self)@.with_cell(as_index(idx@), value),
            !done ==> final(self)@ == old(self)@,
    {
        let shape = raw_shape(self);
        if contains(&shape, idx) {
            raw_set_cell(self, idx, value);
            true
        } else {
            false
        }
    }
}

} // verus!
