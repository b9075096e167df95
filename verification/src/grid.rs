//! The dense voxel grid: a box of cells laid out with X running fastest,
//! then Z, then Y.

use crate::nbt::{tag_int_array, tag_value, TagValue};
use quartz_nbt::NbtTag;
use vstd::prelude::*;

verus! {

/// The size of a box of cells along each axis.
#[derive(Debug, Copy, Clone, Eq, PartialEq)]
pub struct Dimensions {
    pub width: usize,
    pub height: usize,
    pub length: usize,
}

/// The position of one cell.
#[derive(Debug, Copy, Clone, Eq, PartialEq)]
pub struct Coordinates {
    pub x: usize,
    pub y: usize,
    pub z: usize,
}

/// The largest value a coordinate may take: each one fits in sixteen bits.
pub const MAX_COORDINATE: usize = 0xffff;

impl Dimensions {
    /// The number of cells in the box.
    pub open spec fn spec_volume(&self) -> nat {
        (self.width * self.height * self.length) as nat
    }

    /// Whether `coordinates` names a cell of the box.
    pub open spec fn spec_contains(&self, coordinates: &Coordinates) -> bool {
        coordinates.x < self.width && coordinates.y < self.height && coordinates.z < self.length
    }

    /// The number of cells, or `None` where that number does not fit in a
    /// `usize`.
    pub fn checked_volume(&self) -> (volume: Option<usize>)
        ensures
            match volume {
                Some(v) => v == self.spec_volume(),
                None => self.spec_volume() > usize::MAX,
            },
    {
        if self.width == 0 || self.height == 0 || self.length == 0 {
            assert(self.width * self.height * self.length == 0) by (nonlinear_arith)
                requires
                    self.width == 0 || self.height == 0 || self.length == 0,
            ;
            return Some(0);
        }
        match self.width.checked_mul(self.height) {
            None => {
                assert(self.width * self.height * self.length >= self.width * self.height)
                    by (nonlinear_arith)
                    requires
                        self.length >= 1,
                ;
                None
            },
            Some(layer) => layer.checked_mul(self.length),
        }
    }

    /// The number of cells.
    pub fn volume(&self) -> (volume: usize)
        requires
            self.spec_volume() <= usize::MAX,
        ensures
            volume == self.spec_volume(),
    {
        match self.checked_volume() {
            Some(v) => v,
            None => 0,
        }
    }

    /// Whether `coordinates` names a cell of the box.
    pub fn contains(&self, coordinates: &Coordinates) -> (inside: bool)
        ensures
            inside == self.spec_contains(coordinates),
    {
        coordinates.x < self.width && coordinates.y < self.height && coordinates.z
            < self.length
    }
}

impl Coordinates {
    /// Whether each coordinate fits in sixteen bits.
    pub open spec fn in_range(&self) -> bool {
        self.x <= MAX_COORDINATE && self.y <= MAX_COORDINATE && self.z <= MAX_COORDINATE
    }

    /// Where the cell stands in a box of the given size: X runs fastest,
    /// then Z, then Y. A position outside the box has no place.
    pub open spec fn spec_linear_in(&self, dimensions: &Dimensions) -> Option<int> {
        if dimensions.spec_contains(self) {
            Some(self.x + self.z * dimensions.width + self.y * dimensions.width * dimensions.length)
        } else {
            None
        }
    }

    /// Where the cell stands in a box of the given size, or `None` for a
    /// position outside the box.
    pub fn to_linear_in(&self, dimensions: &Dimensions) -> (index: Option<usize>)
        requires
            dimensions.spec_volume() <= usize::MAX,
        ensures
            match index {
                Some(i) => self.spec_linear_in(dimensions) == Some(i as int),
                None => self.spec_linear_in(dimensions).is_none(),
            },
    {
        if dimensions.contains(self) {
            proof {
                lemma_linear_index_in_volume(*self, *dimensions);
                lemma_linear_terms(*self, *dimensions);
            }
            Some(self.x + self.z * dimensions.width + self.y * dimensions.width * dimensions.length)
        } else {
            None
        }
    }
}

impl Coordinates {
    /// The position as the document holds it: the three coordinates, X
    /// first, then Y, then Z.
    pub fn to_nbt(&self) -> (tag: NbtTag)
        requires
            self.in_range(),
        ensures
            tag_value(tag) == TagValue::IntArray(seq![self.x as i32, self.y as i32, self.z as i32]),
    {
        let mut pos: Vec<i32> = Vec::new();
        pos.push(self.x as i32);
        pos.push(self.y as i32);
        pos.push(self.z as i32);
        assert(pos@ =~= seq![self.x as i32, self.y as i32, self.z as i32]);
        tag_int_array(pos)
    }
}

impl From<(u16, u16, u16)> for Coordinates {
    fn from(value: (u16, u16, u16)) -> (coordinates: Self) {
        Self { x: value.0 as usize, y: value.1 as usize, z: value.2 as usize }
    }
}

impl vstd::std_specs::convert::FromSpecImpl<(u16, u16, u16)> for Coordinates {
    open spec fn obeys_from_spec() -> bool {
        true
    }

    open spec fn from_spec(value: (u16, u16, u16)) -> Self {
        Self { x: value.0 as usize, y: value.1 as usize, z: value.2 as usize }
    }
}

/// The partial sums of a linear index stay below the volume, so none of them
/// overflows where the volume fits.
proof fn lemma_linear_terms(c: Coordinates, d: Dimensions)
    requires
        d.spec_contains(&c),
    ensures
        0 <= c.z * d.width <= d.spec_volume(),
        0 <= c.x + c.z * d.width <= d.spec_volume(),
        0 <= c.y * d.width <= d.spec_volume(),
        0 <= c.y * d.width * d.length <= d.spec_volume(),
{
    let (x, y, z) = (c.x as int, c.y as int, c.z as int);
    let (w, h, l) = (d.width as int, d.height as int, d.length as int);
    assert(z * w + w <= l * w && l * w <= w * h * l && y * w <= h * w && h * w <= w * h * l && y
        * w * l <= w * h * l && 0 <= z * w && 0 <= y * w && 0 <= y * w * l) by (nonlinear_arith)
        requires
            0 <= x < w,
            0 <= y < h,
            0 <= z < l,
    ;
}

/// A position inside the box stands at an index below the volume.
pub proof fn lemma_linear_index_in_volume(c: Coordinates, d: Dimensions)
    requires
        d.spec_contains(&c),
    ensures
        0 <= c.spec_linear_in(&d).unwrap() < d.spec_volume(),
{
    let (x, y, z) = (c.x as int, c.y as int, c.z as int);
    let (w, h, l) = (d.width as int, d.height as int, d.length as int);
    assert(0 <= x + z * w + y * w * l < w * h * l) by (nonlinear_arith)
        requires
            0 <= x < w,
            0 <= y < h,
            0 <= z < l,
    ;
}

/// Two positions inside the box that stand at the same index are the same
/// position: writing one cell touches no other.
pub proof fn lemma_linear_index_injective(a: Coordinates, b: Coordinates, d: Dimensions)
    requires
        d.spec_contains(&a),
        d.spec_contains(&b),
        a.spec_linear_in(&d) == b.spec_linear_in(&d),
    ensures
        a == b,
{
    let (w, l) = (d.width as int, d.length as int);
    let (ax, ay, az) = (a.x as int, a.y as int, a.z as int);
    let (bx, by, bz) = (b.x as int, b.y as int, b.z as int);
    assert(ay == by && az == bz && ax == bx) by (nonlinear_arith)
        requires
            0 <= ax < w,
            0 <= bx < w,
            0 <= az < l,
            0 <= bz < l,
            0 <= ay,
            0 <= by,
            ax + az * w + ay * w * l == bx + bz * w + by * w * l,
    ;
}

/// A box of cells, each holding a `T`.
pub struct Array3d<T> {
    dimensions: Dimensions,
    items: Vec<T>,
}

impl<T> View for Array3d<T> {
    type V = Seq<T>;

    /// The cells in storage order: X runs fastest, then Z, then Y.
    closed spec fn view(&self) -> Seq<T> {
        self.items@
    }
}

impl<T> Array3d<T> {
    /// There is one cell for each position of the box.
    #[verifier::type_invariant]
    spec fn well_formed(&self) -> bool {
        self.items@.len() == self.dimensions.spec_volume()
    }

    /// The size of the box.
    pub closed spec fn dimensions(&self) -> Dimensions {
        self.dimensions
    }

    /// Overwrites the cell at `coordinates`. A position outside the box is
    /// passed over: nothing changes.
    pub fn set(&mut self, coordinates: &Coordinates, item: T)
        ensures
            final(self).dimensions() == old(self).dimensions(),
            final(self)@ == match coordinates.spec_linear_in(&old(self).dimensions()) {
                Some(i) => old(self)@.update(i, item),
                None => old(self)@,
            },
    {
        proof {
            use_type_invariant(&*self);
            assert(self.items@.len() == self.items.len());
        }
        match coordinates.to_linear_in(&self.dimensions) {
            Some(i) => {
                proof {
                    lemma_linear_index_in_volume(*coordinates, self.dimensions);
                }
                let mut taken = Self::empty();
                std::mem::swap(self, &mut taken);
                let Array3d { dimensions, mut items } = taken;
                items.set(i, item);
                *self = Array3d { dimensions, items };
            },
            None => {},
        }
    }

    /// A box without cells.
    fn empty() -> (array: Self)
        ensures
            array@.len() == 0,
    {
        Array3d { dimensions: Dimensions { width: 0, height: 0, length: 0 }, items: Vec::new() }
    }

    /// The cells in storage order: X runs fastest, then Z, then Y.
    pub fn xzy_contents(&self) -> (cells: &[T])
        ensures
            cells@ == self@,
            cells@.len() == self.dimensions().spec_volume(),
    {
        proof {
            use_type_invariant(self);
        }
        self.items.as_slice()
    }
}

impl<T: Copy> Array3d<T> {
    /// A box of the given size with `item` in every cell.
    pub fn new_with(dimensions: Dimensions, item: T) -> (array: Self)
        requires
            dimensions.spec_volume() <= usize::MAX,
        ensures
            array.dimensions() == dimensions,
            array@ == Seq::new(dimensions.spec_volume(), |i: int| item),
    {
        let size = dimensions.volume();
        let mut items: Vec<T> = Vec::with_capacity(size);
        let mut filled: usize = 0;
        while filled < size
            invariant
                filled <= size,
                items@ == Seq::new(filled as nat, |i: int| item),
            decreases size - filled,
        {
            items.push(item);
            filled += 1;
            assert(items@ =~= Seq::new(filled as nat, |i: int| item));
        }
        Self { dimensions, items }
    }
}

} // verus!
