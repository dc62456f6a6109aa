//! The axis of a cut, and a block of samples tagged with its position.

use vstd::prelude::*;
use vstd::string::*;
use crate::grid::Grid;
use crate::grid::GridView;

verus! {

/// One of the three spatial axes of a volume.
#[derive(Debug, Clone, Copy, PartialEq, Eq, Structural)]
pub enum Direction {
    X,
    Y,
    Z,
}

impl Direction {
    /// The array axis that the direction stands for.
    pub open spec fn axis(self) -> int {
        match self {
            Direction::X => 0,
            Direction::Y => 1,
            Direction::Z => 2,
        }
    }

    /// The array axis that the direction stands for: 0, 1 or 2.
    pub fn to_usize(&self) -> (a: usize)
        ensures
            a == self.axis(),
            a < 3,
    {
        match self {
            Direction::X => 0,
            Direction::Y => 1,
            Direction::Z => 2,
        }
    }

    /// The axis number as text, as it appears in file names.
    pub fn to_string(&self) -> (s: String)
        ensures
            s@ == seq![Direction::digit(self.axis())],
    {
        proof {
            reveal_strlit("0");
            reveal_strlit("1");
            reveal_strlit("2");
        }
        let s = match self {
            Direction::X => String::from_str("0"),
            Direction::Y => String::from_str("1"),
            Direction::Z => String::from_str("2"),
        };
        assert(s@ =~= seq![Direction::digit(self.axis())]);
        s
    }

    /// The character for an axis number.
    pub open spec fn digit(a: int) -> char {
        if a == 0 {
            '0'
        } else if a == 1 {
            '1'
        } else {
            '2'
        }
    }

    /// The direction that a one-letter name stands for, where the letters
    /// for the three axes are `x`, `y` and `z`, in this order.
    pub open spec fn named(val: Seq<char>, x: char, y: char, z: char) -> Option<Direction> {
        if val.len() != 1 {
            None
        } else if val[0] == x {
            Some(Direction::X)
        } else if val[0] == y {
            Some(Direction::Y)
        } else if val[0] == z {
            Some(Direction::Z)
        } else {
            None
        }
    }

    fn from_letter(val: &str, x: char, y: char, z: char) -> (d: Option<Direction>)
        ensures
            d == Direction::named(val@, x, y, z),
    {
        if val.unicode_len() != 1 {
            return None;
        }
        let c = val.get_char(0);
        if c == x {
            Some(Direction::X)
        } else if c == y {
            Some(Direction::Y)
        } else if c == z {
            Some(Direction::Z)
        } else {
            None
        }
    }

    /// The direction named `x`, `y` or `z`; no other text names one.
    pub fn from_string(val: &str) -> (d: Option<Direction>)
        ensures
            d == Direction::named(val@, 'x', 'y', 'z'),
    {
        Direction::from_letter(val, 'x', 'y', 'z')
    }

    /// The direction named by the unit vector `i`, `j` or `k`; no other
    /// text names one.
    pub fn from_unit_string(val: &str) -> (d: Option<Direction>)
        ensures
            d == Direction::named(val@, 'i', 'j', 'k'),
    {
        Direction::from_letter(val, 'i', 'j', 'k')
    }

    /// The direction of an array axis, if it is 0, 1 or 2.
    pub fn from_usize(val: usize) -> (d: Option<Direction>)
        ensures
            val < 3 <==> d is Some,
            d is Some ==> d->0.axis() == val,
    {
        if val == 0 {
            Some(Direction::X)
        } else if val == 1 {
            Some(Direction::Y)
        } else if val == 2 {
            Some(Direction::Z)
        } else {
            None
        }
    }
}

/// A plane cut from a volume: a block of samples and its position along the
/// axis of the cut, counted from zero.
#[derive(Debug)]
pub struct Slice3D {
    pub slice: Grid,
    pub index: usize,
}

/// The mathematical value of a tagged block.
pub struct TaggedView {
    pub block: GridView,
    pub index: nat,
}

impl View for Slice3D {
    type V = TaggedView;

    open spec fn view(&self) -> TaggedView {
        TaggedView { block: self.slice@, index: self.index as nat }
    }
}

impl Slice3D {
    pub fn new(slice: Grid, index: usize) -> (s: Slice3D)
        ensures
            s.slice == slice,
            s.index == index,
    {
        Slice3D { slice, index }
    }
}

/// One volume of a time series: a block of samples and its position in time,
/// counted from zero.
#[derive(Debug)]
pub struct Vol3D {
    pub vol: Grid,
    pub index: usize,
}

impl View for Vol3D {
    type V = TaggedView;

    open spec fn view(&self) -> TaggedView {
        TaggedView { block: self.vol@, index: self.index as nat }
    }
}

impl Vol3D {
    pub fn new(vol: Grid, index: usize) -> (v: Vol3D)
        ensures
            v.vol == vol,
            v.index == index,
    {
        Vol3D { vol, index }
    }
}

} // verus!
