use vstd::prelude::*;

verus! {

/// A straight run of wall cells from one end cell to the other (inclusive).
#[derive(Debug, Clone, Copy, PartialEq, Eq, Hash, Structural)]
pub struct WallSegment {
    pub id: u32,
    pub start_x: i32,
    pub start_y: i32,
    pub end_x: i32,
    pub end_y: i32,
}

pub open spec fn min_i32(a: i32, b: i32) -> i32 {
    if a <= b { a } else { b }
}

pub open spec fn max_i32(a: i32, b: i32) -> i32 {
    if a <= b { b } else { a }
}

/// The cells of a horizontal or vertical line, ordered by increasing
/// coordinate; a diagonal line has no cells.
pub open spec fn line_cells_spec(sx: i32, sy: i32, ex: i32, ey: i32) -> Seq<(i32, i32)> {
    if sx == ex {
        let lo = min_i32(sy, ey);
        let hi = max_i32(sy, ey);
        Seq::new((hi - lo + 1) as nat, |i: int| (sx, (lo + i) as i32))
    } else if sy == ey {
        let lo = min_i32(sx, ex);
        let hi = max_i32(sx, ex);
        Seq::new((hi - lo + 1) as nat, |i: int| ((lo + i) as i32, sy))
    } else {
        Seq::empty()
    }
}

/// Whether the line from `(sx, sy)` to `(ex, ey)` covers cell `(x, y)`.
pub open spec fn line_covers(sx: i32, sy: i32, ex: i32, ey: i32, x: int, y: int) -> bool {
    if sx == ex {
        x == sx && min_i32(sy, ey) <= y <= max_i32(sy, ey)
    } else if sy == ey {
        y == sy && min_i32(sx, ex) <= x <= max_i32(sx, ex)
    } else {
        false
    }
}

/// A cell is listed by the line exactly when the line covers it.
pub proof fn lemma_line_cells_cover(sx: i32, sy: i32, ex: i32, ey: i32, x: i32, y: i32)
    ensures
        line_cells_spec(sx, sy, ex, ey).contains((x, y)) <==> line_covers(sx, sy, ex, ey, x as int, y as int),
{
    let s = line_cells_spec(sx, sy, ex, ey);
    if line_covers(sx, sy, ex, ey, x as int, y as int) {
        if sx == ex {
            let i = y - min_i32(sy, ey);
            assert(s[i] == (x, y));
        } else {
            let i = x - min_i32(sx, ex);
            assert(s[i] == (x, y));
        }
    }
}

impl WallSegment {
    pub open spec fn cells_spec(self) -> Seq<(i32, i32)> {
        line_cells_spec(self.start_x, self.start_y, self.end_x, self.end_y)
    }

    pub open spec fn covers(self, x: int, y: int) -> bool {
        line_covers(self.start_x, self.start_y, self.end_x, self.end_y, x, y)
    }

    pub open spec fn axis_aligned(self) -> bool {
        self.start_x == self.end_x || self.start_y == self.end_y
    }

    pub fn new(id: u32, start_x: i32, start_y: i32, end_x: i32, end_y: i32) -> (r: WallSegment)
        ensures
            r == (WallSegment { id, start_x, start_y, end_x, end_y }),
    {
        WallSegment { id, start_x, start_y, end_x, end_y }
    }

    pub fn is_axis_aligned(&self) -> (r: bool)
        ensures
            r == self.axis_aligned(),
    {
        self.start_x == self.end_x || self.start_y == self.end_y
    }

    pub fn cells(&self) -> (r: Vec<(i32, i32)>)
        ensures
            r@ == self.cells_spec(),
    {
        line_cells(self.start_x, self.start_y, self.end_x, self.end_y)
    }

    /// Whether this wall covers the cell.
    pub fn contains_cell(&self, x: i32, y: i32) -> (r: bool)
        ensures
            r == self.covers(x as int, y as int),
    {
        if self.start_x == self.end_x {
            if x != self.start_x {
                return false;
            }
            let lo = if self.start_y <= self.end_y { self.start_y } else { self.end_y };
            let hi = if self.start_y <= self.end_y { self.end_y } else { self.start_y };
            return y >= lo && y <= hi;
        }
        if self.start_y == self.end_y {
            if y != self.start_y {
                return false;
            }
            let lo = if self.start_x <= self.end_x { self.start_x } else { self.end_x };
            let hi = if self.start_x <= self.end_x { self.end_x } else { self.start_x };
            return x >= lo && x <= hi;
        }
        false
    }
}

fn run_cells(fixed: i32, lo: i32, hi: i32, vertical: bool) -> (r: Vec<(i32, i32)>)
    requires
        lo <= hi,
    ensures
        r@ == Seq::new(
            (hi - lo + 1) as nat,
            |i: int|
                if vertical {
                    (fixed, (lo + i) as i32)
                } else {
                    ((lo + i) as i32, fixed)
                },
        ),
{
    let mut cells: Vec<(i32, i32)> = Vec::new();
    let mut c: i64 = lo as i64;
    while c <= hi as i64
        invariant
            lo <= c <= hi + 1,
            cells@.len() == c - lo,
            forall|i: int|
                0 <= i < cells@.len() ==> #[trigger] cells@[i] == (if vertical {
                    (fixed, (lo + i) as i32)
                } else {
                    ((lo + i) as i32, fixed)
                }),
        decreases hi + 1 - c,
    {
        let v = c as i32;
        if vertical {
            cells.push((fixed, v));
        } else {
            cells.push((v, fixed));
        }
        c = c + 1;
    }
    let ghost expected = Seq::new(
        (hi - lo + 1) as nat,
        |i: int|
            if vertical {
                (fixed, (lo + i) as i32)
            } else {
                ((lo + i) as i32, fixed)
            },
    );
    assert(cells@ =~= expected);
    cells
}

/// The cells of an axis-aligned line from start to end, inclusive; a
/// diagonal line yields no cells.
pub fn line_cells(start_x: i32, start_y: i32, end_x: i32, end_y: i32) -> (r: Vec<(i32, i32)>)
    ensures
        r@ == line_cells_spec(start_x, start_y, end_x, end_y),
{
    if start_x == end_x {
        let lo = if start_y <= end_y { start_y } else { end_y };
        let hi = if start_y <= end_y { end_y } else { start_y };
        let r = run_cells(start_x, lo, hi, true);
        assert(r@ =~= line_cells_spec(start_x, start_y, end_x, end_y));
        return r;
    }
    if start_y == end_y {
        let lo = if start_x <= end_x { start_x } else { end_x };
        let hi = if start_x <= end_x { end_x } else { start_x };
        let r = run_cells(start_y, lo, hi, false);
        assert(r@ =~= line_cells_spec(start_x, start_y, end_x, end_y));
        return r;
    }
    Vec::new()
}

} // verus!
