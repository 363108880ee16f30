use vstd::prelude::*;

verus! {

/// A two-dimensional size in terminal cells.
#[derive(Clone, Copy, Debug, Default, PartialEq, Eq, Structural, Hash)]
pub struct Size {
    pub width: u16,
    pub height: u16,
}

impl Size {
    /// Creates a size.
    pub fn new(width: u16, height: u16) -> (r: Self)
        ensures
            r.width == width && r.height == height,
    {
        Size { width, height }
    }

    /// Whether either axis is zero.
    pub open spec fn is_empty_spec(self) -> bool {
        self.width == 0 || self.height == 0
    }

    /// Returns whether either axis is zero.
    pub fn is_empty(self) -> (r: bool)
        ensures
            r == self.is_empty_spec(),
    {
        self.width == 0 || self.height == 0
    }
}

/// A cell position, which may lie outside the viewport.
#[derive(Clone, Copy, Debug, Default, PartialEq, Eq, Structural, Hash)]
pub struct Point {
    pub x: i32,
    pub y: i32,
}

/// A rectangle of terminal cells.
#[derive(Clone, Copy, Debug, Default, PartialEq, Eq, Structural, Hash)]
pub struct Rect {
    pub x: i32,
    pub y: i32,
    pub width: u16,
    pub height: u16,
}

impl Rect {
    /// Creates a rectangle.
    pub fn new(x: i32, y: i32, width: u16, height: u16) -> (r: Self)
        ensures
            r == (Rect { x, y, width, height }),
    {
        Rect { x, y, width, height }
    }

    /// One past the rightmost column.
    pub open spec fn right_spec(self) -> int {
        self.x + self.width
    }

    /// One past the bottom row.
    pub open spec fn bottom_spec(self) -> int {
        self.y + self.height
    }

    /// Whether the rectangle covers no cell.
    pub open spec fn is_empty_spec(self) -> bool {
        self.width == 0 || self.height == 0
    }

    /// Whether the cell `(x, y)` lies inside the rectangle.
    pub open spec fn contains_cell(self, x: int, y: int) -> bool {
        self.x <= x < self.right_spec() && self.y <= y < self.bottom_spec()
    }

    /// Whether two rectangles share at least one cell.
    pub open spec fn intersects_spec(self, other: Self) -> bool {
        &&& !self.is_empty_spec()
        &&& !other.is_empty_spec()
        &&& self.x < other.right_spec()
        &&& other.x < self.right_spec()
        &&& self.y < other.bottom_spec()
        &&& other.y < self.bottom_spec()
    }

    /// The rectangle of cells shared with `other`, when they intersect.
    pub open spec fn intersection_spec(self, other: Self) -> Rect {
        let x = if self.x > other.x {
            self.x
        } else {
            other.x
        };
        let y = if self.y > other.y {
            self.y
        } else {
            other.y
        };
        let right = if self.right_spec() < other.right_spec() {
            self.right_spec()
        } else {
            other.right_spec()
        };
        let bottom = if self.bottom_spec() < other.bottom_spec() {
            self.bottom_spec()
        } else {
            other.bottom_spec()
        };
        Rect { x, y, width: (right - x) as u16, height: (bottom - y) as u16 }
    }

    /// Returns whether the rectangle covers no cell.
    pub fn is_empty(self) -> (r: bool)
        ensures
            r == self.is_empty_spec(),
    {
        self.width == 0 || self.height == 0
    }

    /// Returns one past the bottom row.
    pub fn bottom(self) -> (r: i64)
        ensures
            r == self.bottom_spec(),
    {
        self.y as i64 + self.height as i64
    }

    /// Returns one past the rightmost column.
    pub fn right(self) -> (r: i64)
        ensures
            r == self.right_spec(),
    {
        self.x as i64 + self.width as i64
    }

    /// Returns whether two rectangles share at least one cell.
    pub fn intersects(self, other: Self) -> (r: bool)
        ensures
            r == self.intersects_spec(other),
    {
        !self.is_empty() && !other.is_empty() && (self.x as i64) < other.right() && (other.x as i64)
            < self.right() && (self.y as i64) < other.bottom() && (other.y as i64) < self.bottom()
    }

    /// Returns the shared cells of two rectangles, or `None` when they share none.
    pub fn intersection(self, other: Self) -> (r: Option<Self>)
        ensures
            r is None <==> !self.intersects_spec(other),
            r matches Some(i) ==> {
                &&& i == self.intersection_spec(other)
                &&& !i.is_empty_spec()
                &&& forall|x: int, y: int|
                    i.contains_cell(x, y) <==> (self.contains_cell(x, y) && other.contains_cell(
                        x,
                        y,
                    ))
            },
    {
        if !self.intersects(other) {
            return None;
        }
        let x = if self.x > other.x { self.x } else { other.x };
        let y = if self.y > other.y { self.y } else { other.y };
        let sr = self.right();
        let or = other.right();
        let right = if sr < or { sr } else { or };
        let sb = self.bottom();
        let ob = other.bottom();
        let bottom = if sb < ob { sb } else { ob };
        Some(Rect { x, y, width: (right - x as i64) as u16, height: (bottom - y as i64) as u16 })
    }
}

} // verus!
