//! The place of a person in a family tree, as a depth and a width.
use vstd::prelude::*;

verus! {

/// The location of a person in the family tree.
#[derive(Copy, Clone, PartialEq, Eq, Hash, PartialOrd, Ord, Debug)]
pub struct Location {
    /// The depth of the person in the tree: the generation.
    d: i32,
    /// The width of the person in the tree: the movement sideways, to
    /// siblings and partners.
    w: i32,
}

impl Location {
    /// The depth.
    pub closed spec fn depth(self) -> int {
        self.d as int
    }

    /// The width.
    pub closed spec fn width(self) -> int {
        self.w as int
    }

    /// Whether `x` is a 32-bit integer.
    pub open spec fn fits(x: int) -> bool {
        i32::MIN <= x <= i32::MAX
    }

    pub fn new(d: i32, w: i32) -> (at: Location)
        ensures
            at.depth() == d,
            at.width() == w,
    {
        Location { d, w }
    }

    pub fn get_depth(&self) -> (d: i32)
        ensures
            d == self.depth(),
    {
        self.d
    }

    pub fn get_width(&self) -> (w: i32)
        ensures
            w == self.width(),
    {
        self.w
    }

    /// The depth of the one times the width of the other, both ways, summed.
    pub fn dot(&self, other: Location) -> (res: i32)
        requires
            Location::fits(self.depth() * other.width()),
            Location::fits(self.width() * other.depth()),
            Location::fits(self.depth() * other.width() + self.width() * other.depth()),
        ensures
            res == self.depth() * other.width() + self.width() * other.depth(),
    {
        self.d * other.w + self.w * other.d
    }
}

impl core::ops::Add for Location {
    type Output = Location;

    fn add(self, other: Location) -> (sum: Location) {
        Location { d: self.d + other.d, w: self.w + other.w }
    }
}

impl vstd::std_specs::ops::AddSpecImpl for Location {
    open spec fn obeys_add_spec() -> bool {
        true
    }

    open spec fn add_req(self, other: Location) -> bool {
        Location::fits(self.depth() + other.depth()) && Location::fits(self.width() + other.width())
    }

    closed spec fn add_spec(self, other: Location) -> Location {
        Location { d: (self.d + other.d) as i32, w: (self.w + other.w) as i32 }
    }
}

impl core::ops::Sub for Location {
    type Output = Location;

    fn sub(self, other: Location) -> (difference: Location) {
        Location { d: self.d - other.d, w: self.w - other.w }
    }
}

impl vstd::std_specs::ops::SubSpecImpl for Location {
    open spec fn obeys_sub_spec() -> bool {
        true
    }

    open spec fn sub_req(self, other: Location) -> bool {
        Location::fits(self.depth() - other.depth()) && Location::fits(self.width() - other.width())
    }

    closed spec fn sub_spec(self, other: Location) -> Location {
        Location { d: (self.d - other.d) as i32, w: (self.w - other.w) as i32 }
    }
}

/// What the sum and the difference of two locations are: depth by depth and
/// width by width.
pub proof fn lemma_location_sum(a: Location, b: Location)
    requires
        Location::fits(a.depth() + b.depth()),
        Location::fits(a.width() + b.width()),
        Location::fits(a.depth() - b.depth()),
        Location::fits(a.width() - b.width()),
    ensures
        vstd::std_specs::ops::AddSpec::add_spec(a, b).depth() == a.depth() + b.depth(),
        vstd::std_specs::ops::AddSpec::add_spec(a, b).width() == a.width() + b.width(),
        vstd::std_specs::ops::SubSpec::sub_spec(a, b).depth() == a.depth() - b.depth(),
        vstd::std_specs::ops::SubSpec::sub_spec(a, b).width() == a.width() - b.width(),
{
}

} // verus!
