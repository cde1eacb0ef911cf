use vstd::prelude::*;

verus! {

/// Signed, half-open canvas bounds: `min <= x < max`, `min <= y < max`.
#[derive(Debug, Clone, Copy, PartialEq, Eq, Structural)]
pub struct MapBounds {
    pub min_x: i32,
    pub min_y: i32,
    pub max_x: i32,
    pub max_y: i32,
}

impl MapBounds {
    pub open spec fn valid(self) -> bool {
        self.min_x < self.max_x && self.min_y < self.max_y
    }

    /// Extent along one axis, zero when it is empty or does not fit `usize`.
    pub open spec fn span(lo: i32, hi: i32) -> nat {
        if lo < hi && hi - lo <= usize::MAX {
            (hi - lo) as nat
        } else {
            0
        }
    }

    pub open spec fn width_spec(self) -> nat {
        MapBounds::span(self.min_x, self.max_x)
    }

    pub open spec fn height_spec(self) -> nat {
        MapBounds::span(self.min_y, self.max_y)
    }

    pub open spec fn has(self, x: int, y: int) -> bool {
        self.min_x <= x < self.max_x && self.min_y <= y < self.max_y
    }

    pub open spec fn square_spec(size: usize) -> Option<MapBounds> {
        if 0 < size <= i32::MAX {
            Some(MapBounds { min_x: 0, min_y: 0, max_x: size as i32, max_y: size as i32 })
        } else {
            None
        }
    }

    pub fn square(size: usize) -> (r: Option<MapBounds>)
        ensures
            r == MapBounds::square_spec(size),
    {
        if size == 0 || size > i32::MAX as usize {
            None
        } else {
            Some(MapBounds { min_x: 0, min_y: 0, max_x: size as i32, max_y: size as i32 })
        }
    }

    pub fn is_valid(self) -> (r: bool)
        ensures
            r == self.valid(),
    {
        self.min_x < self.max_x && self.min_y < self.max_y
    }

    fn axis_span(lo: i32, hi: i32) -> (r: usize)
        ensures
            r == MapBounds::span(lo, hi),
    {
        let d: i64 = hi as i64 - lo as i64;
        if d > 0 && (d as u64) <= (usize::MAX as u64) {
            d as usize
        } else {
            0
        }
    }

    pub fn width(self) -> (r: usize)
        ensures
            r == self.width_spec(),
    {
        MapBounds::axis_span(self.min_x, self.max_x)
    }

    pub fn height(self) -> (r: usize)
        ensures
            r == self.height_spec(),
    {
        MapBounds::axis_span(self.min_y, self.max_y)
    }

    pub fn contains(self, x: i32, y: i32) -> (r: bool)
        ensures
            r == self.has(x as int, y as int),
    {
        x >= self.min_x && x < self.max_x && y >= self.min_y && y < self.max_y
    }
}

} // verus!
