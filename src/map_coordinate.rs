use vstd::prelude::*;

verus! {

/// A cell of the square grid world: `width` is its column, `height` its row.
#[derive(Debug, Clone, Copy, PartialEq, Eq, Structural)]
pub struct MapCoordinate {
    pub width: usize,
    pub height: usize,
}

impl MapCoordinate {
    /// The cell in column `width` and row `height`.
    pub fn new(width: usize, height: usize) -> (r: MapCoordinate)
        ensures
            r.width == width,
            r.height == height,
    {
        MapCoordinate { width, height }
    }

    /// The column of the cell.
    pub fn get_width(&self) -> (r: usize)
        ensures
            r == self.width,
    {
        self.width
    }

    /// Moves the cell to column `width`, keeping its row.
    pub fn set_width(&mut self, width: usize)
        ensures
            *final(self) == (MapCoordinate { width, height: old(self).height }),
    {
        self.width = width;
    }

    /// The row of the cell.
    pub fn get_height(&self) -> (r: usize)
        ensures
            r == self.height,
    {
        self.height
    }

    /// Moves the cell to row `height`, keeping its column.
    pub fn set_height(&mut self, height: usize)
        ensures
            *final(self) == (MapCoordinate { width: old(self).width, height }),
    {
        self.height = height;
    }
}

impl std::ops::Add for MapCoordinate {
    type Output = MapCoordinate;

    /// Component-wise sum.
    fn add(self, rhs: MapCoordinate) -> (r: MapCoordinate) {
        MapCoordinate { width: self.width + rhs.width, height: self.height + rhs.height }
    }
}

impl vstd::std_specs::ops::AddSpecImpl for MapCoordinate {
    open spec fn obeys_add_spec() -> bool {
        true
    }

    open spec fn add_req(self, rhs: MapCoordinate) -> bool {
        &&& self.width + rhs.width <= usize::MAX
        &&& self.height + rhs.height <= usize::MAX
    }

    open spec fn add_spec(self, rhs: MapCoordinate) -> MapCoordinate {
        MapCoordinate {
            width: (self.width + rhs.width) as usize,
            height: (self.height + rhs.height) as usize,
        }
    }
}

impl std::ops::Sub for MapCoordinate {
    type Output = MapCoordinate;

    /// Component-wise difference.
    fn sub(self, rhs: MapCoordinate) -> (r: MapCoordinate) {
        MapCoordinate { width: self.width - rhs.width, height: self.height - rhs.height }
    }
}

impl vstd::std_specs::ops::SubSpecImpl for MapCoordinate {
    open spec fn obeys_sub_spec() -> bool {
        true
    }

    open spec fn sub_req(self, rhs: MapCoordinate) -> bool {
        &&& rhs.width <= self.width
        &&& rhs.height <= self.height
    }

    open spec fn sub_spec(self, rhs: MapCoordinate) -> MapCoordinate {
        MapCoordinate {
            width: (self.width - rhs.width) as usize,
            height: (self.height - rhs.height) as usize,
        }
    }
}

impl From<(usize, usize)> for MapCoordinate {
    /// The pair `(column, row)` as a cell.
    fn from(value: (usize, usize)) -> (r: MapCoordinate) {
        MapCoordinate { width: value.0, height: value.1 }
    }
}

impl vstd::std_specs::convert::FromSpecImpl<(usize, usize)> for MapCoordinate {
    open spec fn obeys_from_spec() -> bool {
        true
    }

    open spec fn from_spec(value: (usize, usize)) -> MapCoordinate {
        MapCoordinate { width: value.0, height: value.1 }
    }
}

impl From<MapCoordinate> for (usize, usize) {
    /// The cell as the pair `(column, row)`.
    fn from(value: MapCoordinate) -> (r: (usize, usize)) {
        (value.width, value.height)
    }
}

impl vstd::std_specs::convert::FromSpecImpl<MapCoordinate> for (usize, usize) {
    open spec fn obeys_from_spec() -> bool {
        true
    }

    open spec fn from_spec(value: MapCoordinate) -> (usize, usize) {
        (value.width, value.height)
    }
}

} // verus!
