use vstd::prelude::*;

use super::{MapBounds, MapError};
use crate::buildings::{BuildingPlacement, lemma_blocking_within_occupied};

verus! {

/// Largest number of cells a map may hold: `u32::MAX`, the range of a route
/// length. Route lengths are `u32` values, and the route search marks the
/// cells it has not reached with `u32::MAX`; a walk visits each cell at most
/// once, so on a map of at most this many cells every route length fits
/// below that mark. A larger map could hold routes whose length no `u32`
/// records.
pub const MAX_CELL_COUNT: usize = 4_294_967_295;

/// The occupancy grid of the canvas: which object reserves each cell and
/// which cells block movement.
#[derive(Debug, Clone)]
pub struct CellMap {
    bounds: MapBounds,
    cells: Vec<Option<u32>>,
    blocked: Vec<bool>,
}

/// Whether a map with these bounds can be created.
pub open spec fn bounds_allocatable(bounds: MapBounds) -> bool {
    &&& bounds.valid()
    &&& bounds.width_spec() > 0
    &&& bounds.height_spec() > 0
    &&& bounds.width_spec() * bounds.height_spec() <= MAX_CELL_COUNT
}

/// The result a cell check reports for a conflict.
pub open spec fn conflict_result(c: Option<MapError>) -> Result<(), MapError> {
    match c {
        Some(e) => Err(e),
        None => Ok(()),
    }
}

/// Membership in a sequence after pushing one more element.
pub proof fn lemma_contains_push<A>(s: Seq<A>, c: A, v: A)
    ensures
        s.push(c).contains(v) == (s.contains(v) || v == c),
{
    if s.contains(v) {
        let i = choose|i: int| 0 <= i < s.len() && s[i] == v;
        assert(s.push(c)[i] == v);
    }
    if v == c {
        assert(s.push(c)[s.len() as int] == v);
    }
    if s.push(c).contains(v) {
        let i = choose|i: int| 0 <= i < s.push(c).len() && s.push(c)[i] == v;
        if i < s.len() {
            assert(s[i] == v);
        }
    }
}

impl CellMap {
    pub closed spec fn bounds_spec(&self) -> MapBounds {
        self.bounds
    }

    /// The map is well formed: its grid fits its bounds, and every cell
    /// that blocks movement is reserved.
    pub open spec fn wf(&self) -> bool {
        &&& self.grid_ok()
        &&& self.blocked_reserved()
    }

    /// The grid has one slot per cell of the bounds.
    pub closed spec fn grid_ok(&self) -> bool {
        &&& bounds_allocatable(self.bounds)
        &&& self.cells@.len() == self.bounds.width_spec() * self.bounds.height_spec()
        &&& self.blocked@.len() == self.bounds.width_spec() * self.bounds.height_spec()
    }

    pub closed spec fn local_index(&self, x: int, y: int) -> int {
        (y - self.bounds.min_y) * (self.bounds.width_spec() as int) + (x - self.bounds.min_x)
    }

    /// The object that reserves cell `(x, y)`, if any.
    pub closed spec fn occupant(&self, x: int, y: int) -> Option<u32> {
        if self.bounds.has(x, y) {
            self.cells@[self.local_index(x, y)]
        } else {
            None
        }
    }

    /// Whether cell `(x, y)` blocks movement.
    pub closed spec fn blocked_at(&self, x: int, y: int) -> bool {
        self.bounds.has(x, y) && self.blocked@[self.local_index(x, y)]
    }

    pub open spec fn occupied_at(&self, x: int, y: int) -> bool {
        self.occupant(x, y) is Some
    }

    pub open spec fn in_bounds(&self, x: int, y: int) -> bool {
        self.bounds_spec().has(x, y)
    }

    pub open spec fn cell_count(&self) -> nat {
        self.bounds_spec().width_spec() * self.bounds_spec().height_spec()
    }

    /// The first problem found when checking `cells` from position `i` on.
    pub open spec fn conflict_from(&self, cells: Seq<(i32, i32)>, i: int) -> Option<MapError>
        decreases cells.len() - i,
    {
        if i < 0 || i >= cells.len() {
            None
        } else if !self.in_bounds(cells[i].0 as int, cells[i].1 as int) {
            Some(MapError::OutOfBounds)
        } else if self.occupied_at(cells[i].0 as int, cells[i].1 as int) {
            Some(MapError::Occupied)
        } else {
            self.conflict_from(cells, i + 1)
        }
    }

    pub open spec fn first_conflict(&self, cells: Seq<(i32, i32)>) -> Option<MapError> {
        self.conflict_from(cells, 0)
    }

    /// Every listed cell is inside the map and free.
    pub open spec fn all_free(&self, cells: Seq<(i32, i32)>) -> bool {
        forall|k: int|
            0 <= k < cells.len() ==> self.in_bounds((#[trigger] cells[k]).0 as int, cells[k].1 as int)
                && !self.occupied_at(cells[k].0 as int, cells[k].1 as int)
    }

    /// Same bounds and the same content in every cell.
    pub open spec fn same_content(&self, other: &CellMap) -> bool {
        &&& self.bounds_spec() == other.bounds_spec()
        &&& forall|x: int, y: int| #[trigger] self.occupant(x, y) == other.occupant(x, y)
        &&& forall|x: int, y: int| #[trigger] self.blocked_at(x, y) == other.blocked_at(x, y)
    }

    /// Every cell that blocks movement lies on the map and is reserved.
    pub open spec fn blocked_reserved(&self) -> bool {
        forall|x: int, y: int| #[trigger] self.blocked_at(x, y) ==> self.in_bounds(x, y) && self.occupied_at(x, y)
    }

    /// `self` is `before` with the listed cells reserved and blocked for
    /// `occupant_id`, as `place_cells` leaves a map.
    pub open spec fn cells_placed(&self, before: CellMap, occupant_id: u32, cells: Seq<(i32, i32)>) -> bool {
        &&& self.bounds_spec() == before.bounds_spec()
        &&& forall|x: i32, y: i32|
            #[trigger] self.occupant(x as int, y as int) == (if cells.contains((x, y)) && before.in_bounds(x as int, y as int) {
                Some(occupant_id)
            } else {
                before.occupant(x as int, y as int)
            })
        &&& forall|x: i32, y: i32|
            #[trigger] self.blocked_at(x as int, y as int) == (before.blocked_at(x as int, y as int) || (cells.contains((x, y))
                && before.in_bounds(x as int, y as int)))
    }

    /// `self` is `before` with the listed cells freed, as `clear_cells`
    /// leaves a map.
    pub open spec fn cells_cleared(&self, before: CellMap, cells: Seq<(i32, i32)>) -> bool {
        &&& self.bounds_spec() == before.bounds_spec()
        &&& forall|x: i32, y: i32|
            #[trigger] self.occupant(x as int, y as int) == (if cells.contains((x, y)) {
                None::<u32>
            } else {
                before.occupant(x as int, y as int)
            })
        &&& forall|x: i32, y: i32|
            #[trigger] self.blocked_at(x as int, y as int) == (before.blocked_at(x as int, y as int) && !cells.contains((x, y)))
    }

    /// A cell off the map neither blocks nor is reserved, and a blocking
    /// cell of a map whose blocked cells are reserved is on the map and
    /// reserved.
    pub proof fn lemma_blocked_cells(&self, x: int, y: int)
        requires
            self.blocked_reserved(),
        ensures
            self.blocked_at(x, y) ==> self.in_bounds(x, y) && self.occupied_at(x, y),
            !self.in_bounds(x, y) ==> !self.blocked_at(x, y) && !self.occupied_at(x, y),
    {
    }

    /// Whether the blocked cells stay reserved can be read off the cells
    /// that have `i32` coordinates.
    proof fn lemma_blocked_reserved_from_i32(&self)
        requires
            forall|x: i32, y: i32|
                #[trigger] self.blocked_at(x as int, y as int) ==> self.occupied_at(x as int, y as int),
        ensures
            self.blocked_reserved(),
    {
        assert forall|x: int, y: int| #[trigger] self.blocked_at(x, y) implies self.in_bounds(x, y) && self.occupied_at(x, y) by {
            assert(self.blocked_at((x as i32) as int, (y as i32) as int));
        }
    }

    /// Freeing the cells that were just reserved and blocked on free cells
    /// gives back the map as it was: every cell is reserved by the same
    /// object, and blocks, as before.
    pub proof fn lemma_clear_undoes_place(
        before: CellMap,
        placed: CellMap,
        cleared: CellMap,
        occupant_id: u32,
        cells: Seq<(i32, i32)>,
    )
        requires
            before.wf(),
            before.all_free(cells),
            placed.cells_placed(before, occupant_id, cells),
            cleared.cells_cleared(placed, cells),
        ensures
            cleared.bounds_spec() == before.bounds_spec(),
            forall|x: i32, y: i32| #[trigger] cleared.occupant(x as int, y as int) == before.occupant(x as int, y as int),
            forall|x: i32, y: i32| #[trigger] cleared.blocked_at(x as int, y as int) == before.blocked_at(x as int, y as int),
    {
        assert forall|x: i32, y: i32| #[trigger] cleared.occupant(x as int, y as int) == before.occupant(x as int, y as int) by {
            assert(placed.occupant(x as int, y as int) == placed.occupant(x as int, y as int));
            if cells.contains((x, y)) {
                let k = choose|k: int| 0 <= k < cells.len() && cells[k] == (x, y);
                assert(!before.occupied_at(cells[k].0 as int, cells[k].1 as int));
            }
        }
        assert forall|x: i32, y: i32| #[trigger] cleared.blocked_at(x as int, y as int) == before.blocked_at(x as int, y as int) by {
            assert(placed.blocked_at(x as int, y as int) == placed.blocked_at(x as int, y as int));
            if cells.contains((x, y)) {
                let k = choose|k: int| 0 <= k < cells.len() && cells[k] == (x, y);
                assert(!before.occupied_at(cells[k].0 as int, cells[k].1 as int));
                before.lemma_blocked_cells(x as int, y as int);
            }
        }
    }

    pub proof fn lemma_index(&self, x: int, y: int)
        requires
            self.grid_ok(),
            self.bounds_spec().has(x, y),
        ensures
            0 <= self.local_index(x, y) < self.cell_count(),
            self.local_index(x, y) % (self.bounds_spec().width_spec() as int) == x - self.bounds_spec().min_x,
            self.local_index(x, y) / (self.bounds_spec().width_spec() as int) == y - self.bounds_spec().min_y,
    {
        let w = self.bounds.width_spec() as int;
        let h = self.bounds.height_spec() as int;
        let lx = x - self.bounds.min_x;
        let ly = y - self.bounds.min_y;
        assert(lx < w && ly < h);
        assert(0 <= ly * w + lx < w * h) by (nonlinear_arith)
            requires
                0 <= lx < w,
                0 <= ly < h,
        ;
        vstd::arithmetic::div_mod::lemma_fundamental_div_mod_converse(ly * w + lx, w, ly, lx);
    }

    pub proof fn lemma_index_injective(&self, x1: int, y1: int, x2: int, y2: int)
        requires
            self.grid_ok(),
            self.bounds_spec().has(x1, y1),
            self.bounds_spec().has(x2, y2),
            self.local_index(x1, y1) == self.local_index(x2, y2),
        ensures
            x1 == x2 && y1 == y2,
    {
        self.lemma_index(x1, y1);
        self.lemma_index(x2, y2);
    }

    /// Facts about every well-formed map.
    pub proof fn lemma_wf_facts(&self)
        requires
            self.wf(),
        ensures
            self.bounds_spec().valid(),
            self.bounds_spec().width_spec() > 0,
            self.bounds_spec().height_spec() > 0,
            self.cell_count() <= MAX_CELL_COUNT,
    {
    }

    /// Cells off the map are neither reserved nor blocked.
    pub proof fn lemma_outside_free(&self, x: int, y: int)
        ensures
            !self.in_bounds(x, y) ==> !self.occupied_at(x, y) && !self.blocked_at(x, y),
    {
    }

    /// A list of distinct in-bounds cells is no longer than the map has cells.
    pub proof fn lemma_distinct_cells_bounded(&self, cells: Seq<(i32, i32)>)
        requires
            self.grid_ok(),
            cells.no_duplicates(),
            forall|k: int| 0 <= k < cells.len() ==> self.in_bounds((#[trigger] cells[k]).0 as int, cells[k].1 as int),
        ensures
            cells.len() <= self.cell_count(),
    {
        let idx = Seq::new(cells.len(), |k: int| self.local_index(cells[k].0 as int, cells[k].1 as int));
        assert forall|a: int, b: int| 0 <= a < idx.len() && 0 <= b < idx.len() && a != b implies idx[a] != idx[b] by {
            if idx[a] == idx[b] {
                self.lemma_index_injective(cells[a].0 as int, cells[a].1 as int, cells[b].0 as int, cells[b].1 as int);
            }
        }
        assert(idx.no_duplicates());
        idx.unique_seq_to_set();
        let area = self.cell_count() as int;
        assert forall|v: int| idx.to_set().contains(v) implies vstd::set_lib::set_int_range(0, area).contains(v) by {
            let k = choose|k: int| 0 <= k < idx.len() && idx[k] == v;
            self.lemma_index(cells[k].0 as int, cells[k].1 as int);
        }
        vstd::set_lib::lemma_int_range(0, area);
        vstd::set_lib::lemma_len_subset(idx.to_set(), vstd::set_lib::set_int_range(0, area));
    }

    /// An empty map covering `bounds`; `None` when the bounds are empty or
    /// hold more cells than route lengths can count (`MAX_CELL_COUNT`).
    pub fn with_bounds(bounds: MapBounds) -> (r: Option<CellMap>)
        ensures
            r is Some <==> bounds_allocatable(bounds),
            r matches Some(m) ==> {
                &&& m.wf()
                &&& m.bounds_spec() == bounds
                &&& forall|x: int, y: int| #[trigger] m.occupant(x, y) == None::<u32>
                &&& forall|x: int, y: int| !(#[trigger] m.blocked_at(x, y))
            },
    {
        if !bounds.is_valid() {
            return None;
        }
        let w = bounds.width();
        let h = bounds.height();
        if w == 0 || h == 0 {
            return None;
        }
        let area = match w.checked_mul(h) {
            Some(a) => a,
            None => return None,
        };
        if area > MAX_CELL_COUNT {
            return None;
        }
        let cells: Vec<Option<u32>> = vec![None; area];
        let blocked: Vec<bool> = vec![false; area];
        let m = CellMap { bounds, cells, blocked };
        assert forall|x: int, y: int| #[trigger] m.occupant(x, y) == None::<u32> by {
            if bounds.has(x, y) {
                m.lemma_index(x, y);
            }
        }
        assert forall|x: int, y: int| !(#[trigger] m.blocked_at(x, y)) by {
            if bounds.has(x, y) {
                m.lemma_index(x, y);
            }
        }
        Some(m)
    }

    /// A square map of `size` cells per side.
    pub fn new(size: usize) -> (r: CellMap)
        requires
            0 < size <= i32::MAX,
            size * size <= MAX_CELL_COUNT,
        ensures
            r.wf(),
            Some(r.bounds_spec()) == MapBounds::square_spec(size),
            forall|x: int, y: int| #[trigger] r.occupant(x, y) == None::<u32>,
            forall|x: int, y: int| !(#[trigger] r.blocked_at(x, y)),
    {
        let bounds = MapBounds::square(size).unwrap();
        CellMap::with_bounds(bounds).unwrap()
    }

    pub fn bounds(&self) -> (r: MapBounds)
        ensures
            r == self.bounds_spec(),
    {
        self.bounds
    }

    pub fn width(&self) -> (r: usize)
        ensures
            r == self.bounds_spec().width_spec(),
    {
        self.bounds.width()
    }

    pub fn height(&self) -> (r: usize)
        ensures
            r == self.bounds_spec().height_spec(),
    {
        self.bounds.height()
    }

    /// The map width (kept for square maps).
    pub fn size(&self) -> (r: usize)
        ensures
            r == self.bounds_spec().width_spec(),
    {
        self.width()
    }

    /// The position of an in-bounds cell in the row-major cell arrays.
    pub fn index(&self, x: i32, y: i32) -> (r: Option<usize>)
        requires
            self.grid_ok(),
        ensures
            r is Some <==> self.in_bounds(x as int, y as int),
            r matches Some(i) ==> i == self.local_index(x as int, y as int) && i < self.cell_count(),
    {
        if !self.bounds.contains(x, y) {
            return None;
        }
        proof {
            self.lemma_index(x as int, y as int);
        }
        let lx = (x as i64 - self.bounds.min_x as i64) as usize;
        let ly = (y as i64 - self.bounds.min_y as i64) as usize;
        let w = self.bounds.width();
        let h = Ghost(self.bounds.height_spec() as int);
        assert(ly * w + lx < w * h@) by (nonlinear_arith)
            requires
                lx < w,
                ly < h@,
        ;
        Some(ly * w + lx)
    }

    pub fn is_in_bounds(&self, x: i32, y: i32) -> (r: bool)
        ensures
            r == self.in_bounds(x as int, y as int),
    {
        self.bounds.contains(x, y)
    }

    pub fn get_cell(&self, x: i32, y: i32) -> (r: Option<u32>)
        requires
            self.wf(),
        ensures
            r == self.occupant(x as int, y as int),
    {
        match self.index(x, y) {
            Some(i) => self.cells[i],
            None => None,
        }
    }

    pub fn is_occupied(&self, x: i32, y: i32) -> (r: bool)
        requires
            self.wf(),
        ensures
            r == self.occupied_at(x as int, y as int),
    {
        self.get_cell(x, y).is_some()
    }

    pub fn is_blocked(&self, x: i32, y: i32) -> (r: bool)
        requires
            self.wf(),
        ensures
            r == self.blocked_at(x as int, y as int),
    {
        match self.index(x, y) {
            Some(i) => self.blocked[i],
            None => false,
        }
    }

    /// Checks the cells in order and reports the first one that is outside
    /// the map or already reserved.
    pub fn can_place_cells(&self, cells: &Vec<(i32, i32)>) -> (r: Result<(), MapError>)
        requires
            self.wf(),
        ensures
            r == conflict_result(self.first_conflict(cells@)),
            r is Ok <==> self.all_free(cells@),
    {
        let mut i: usize = 0;
        while i < cells.len()
            invariant
                self.wf(),
                i <= cells@.len(),
                self.first_conflict(cells@) == self.conflict_from(cells@, i as int),
                forall|k: int|
                    0 <= k < i ==> self.in_bounds((#[trigger] cells@[k]).0 as int, cells@[k].1 as int)
                        && !self.occupied_at(cells@[k].0 as int, cells@[k].1 as int),
            decreases cells@.len() - i,
        {
            let (x, y) = cells[i];
            if !self.is_in_bounds(x, y) {
                return Err(MapError::OutOfBounds);
            }
            if self.is_occupied(x, y) {
                return Err(MapError::Occupied);
            }
            i = i + 1;
        }
        Ok(())
    }

    pub fn can_place(&self, placement: &BuildingPlacement) -> (r: Result<(), MapError>)
        requires
            self.wf(),
            placement.fits(),
        ensures
            r == conflict_result(self.first_conflict(placement.occupied_cells_spec())),
            r is Ok <==> self.all_free(placement.occupied_cells_spec()),
    {
        let cells = placement.occupied_cells();
        self.can_place_cells(&cells)
    }

    /// Writes `id` into every listed in-bounds cell, and marks those cells
    /// blocked when `block` holds.
    fn write_cells(&mut self, cells: &Vec<(i32, i32)>, id: u32, block: bool)
        requires
            old(self).grid_ok(),
            forall|k: int| 0 <= k < cells@.len() ==> old(self).in_bounds((#[trigger] cells@[k]).0 as int, cells@[k].1 as int),
        ensures
            final(self).grid_ok(),
            final(self).bounds_spec() == old(self).bounds_spec(),
            forall|x: i32, y: i32|
                #[trigger] final(self).occupant(x as int, y as int) == (if cells@.contains((x, y)) && old(self).in_bounds(x as int, y as int) {
                    Some(id)
                } else {
                    old(self).occupant(x as int, y as int)
                }),
            forall|x: i32, y: i32|
                #[trigger] final(self).blocked_at(x as int, y as int) == (old(self).blocked_at(x as int, y as int) || (block
                    && cells@.contains((x, y)) && old(self).in_bounds(x as int, y as int))),
    {
        let ghost start = *old(self);
        let mut k: usize = 0;
        while k < cells.len()
            invariant
                self.grid_ok(),
                self.bounds == start.bounds,
                start.grid_ok(),
                k <= cells@.len(),
                forall|j: int| 0 <= j < cells@.len() ==> start.in_bounds((#[trigger] cells@[j]).0 as int, cells@[j].1 as int),
                forall|x: i32, y: i32|
                    #[trigger] self.occupant(x as int, y as int) == (if cells@.subrange(0, k as int).contains((x, y))
                        && start.in_bounds(x as int, y as int) {
                        Some(id)
                    } else {
                        start.occupant(x as int, y as int)
                    }),
                forall|x: i32, y: i32|
                    #[trigger] self.blocked_at(x as int, y as int) == (start.blocked_at(x as int, y as int) || (block
                        && cells@.subrange(0, k as int).contains((x, y)) && start.in_bounds(x as int, y as int))),
            decreases cells@.len() - k,
        {
            let (cx, cy) = cells[k];
            let idx = self.index(cx, cy).unwrap();
            let ghost before = *self;
            self.cells.set(idx, Some(id));
            if block {
                self.blocked.set(idx, true);
            }
            assert forall|x: i32, y: i32|
                #[trigger] self.occupant(x as int, y as int) == (if cells@.subrange(0, k + 1).contains((x, y))
                    && start.in_bounds(x as int, y as int) {
                    Some(id)
                } else {
                    start.occupant(x as int, y as int)
                }) by {
                assert(cells@.subrange(0, k + 1) =~= cells@.subrange(0, k as int).push((cx, cy)));
                lemma_contains_push(cells@.subrange(0, k as int), (cx, cy), (x, y));
                if start.in_bounds(x as int, y as int) {
                    self.lemma_index(x as int, y as int);
                    if x != cx || y != cy {
                        if self.local_index(x as int, y as int) == idx {
                            self.lemma_index_injective(x as int, y as int, cx as int, cy as int);
                        }
                        assert(self.occupant(x as int, y as int) == before.occupant(x as int, y as int));
                    }
                }
            }
            assert forall|x: i32, y: i32|
                #[trigger] self.blocked_at(x as int, y as int) == (start.blocked_at(x as int, y as int) || (block
                    && cells@.subrange(0, k + 1).contains((x, y)) && start.in_bounds(x as int, y as int))) by {
                assert(cells@.subrange(0, k + 1) =~= cells@.subrange(0, k as int).push((cx, cy)));
                lemma_contains_push(cells@.subrange(0, k as int), (cx, cy), (x, y));
                if start.in_bounds(x as int, y as int) {
                    self.lemma_index(x as int, y as int);
                    if x != cx || y != cy {
                        if self.local_index(x as int, y as int) == idx {
                            self.lemma_index_injective(x as int, y as int, cx as int, cy as int);
                        }
                        assert(self.blocked_at(x as int, y as int) == before.blocked_at(x as int, y as int));
                    }
                }
            }
            k = k + 1;
        }
        assert(cells@.subrange(0, k as int) =~= cells@);
    }

    /// Reserves the building's cells and blocks its blocking cells, or
    /// reports the first conflicting cell and changes nothing.
    pub fn place(&mut self, placement: &BuildingPlacement) -> (r: Result<(), MapError>)
        requires
            old(self).wf(),
            placement.fits(),
        ensures
            r == conflict_result(old(self).first_conflict(placement.occupied_cells_spec())),
            r is Ok <==> old(self).all_free(placement.occupied_cells_spec()),
            r is Err ==> *final(self) == *old(self),
            r is Ok ==> final(self).wf() && final(self).bounds_spec() == old(self).bounds_spec(),
            r is Ok ==> forall|x: i32, y: i32|
                #[trigger] final(self).occupant(x as int, y as int) == (if placement.occupied_cells_spec().contains((x, y))
                    && old(self).in_bounds(x as int, y as int) {
                    Some(placement.id)
                } else {
                    old(self).occupant(x as int, y as int)
                }),
            r is Ok ==> forall|x: i32, y: i32|
                #[trigger] final(self).blocked_at(x as int, y as int) == (old(self).blocked_at(x as int, y as int) || (
                placement.blocking_cells_spec().contains((x, y)) && old(self).in_bounds(x as int, y as int))),
    {
        let occupied = placement.occupied_cells();
        match self.can_place_cells(&occupied) {
            Err(e) => return Err(e),
            Ok(()) => {},
        }
        let blocking = placement.blocking_cells();
        proof {
            lemma_blocking_within_occupied(placement@);
            assert forall|k: int| 0 <= k < blocking@.len() implies self.in_bounds((#[trigger] blocking@[k]).0 as int, blocking@[k].1 as int) by {
                let j = choose|j: int| 0 <= j < occupied@.len() && occupied@[j] == blocking@[k];
                assert(self.in_bounds(occupied@[j].0 as int, occupied@[j].1 as int));
            }
        }
        let ghost start = *self;
        self.write_cells(&occupied, placement.id, false);
        let ghost mid = *self;
        self.write_cells(&blocking, placement.id, false);
        self.mark_blocked(&blocking);
        proof {
            assert forall|x: i32, y: i32|
                #[trigger] self.occupant(x as int, y as int) == (if occupied@.contains((x, y)) && start.in_bounds(x as int, y as int) {
                    Some(placement.id)
                } else {
                    start.occupant(x as int, y as int)
                }) by {
                if blocking@.contains((x, y)) && start.in_bounds(x as int, y as int) {
                    let k = choose|k: int| 0 <= k < blocking@.len() && blocking@[k] == (x, y);
                    let j = choose|j: int| 0 <= j < occupied@.len() && occupied@[j] == blocking@[k];
                    assert(occupied@.contains((x, y)));
                }
            }
            assert forall|x: i32, y: i32| #[trigger] self.blocked_at(x as int, y as int) implies self.occupied_at(
                x as int,
                y as int,
            ) by {
                start.lemma_blocked_cells(x as int, y as int);
                if blocking@.contains((x, y)) && start.in_bounds(x as int, y as int) {
                    let k = choose|k: int| 0 <= k < blocking@.len() && blocking@[k] == (x, y);
                    let j = choose|j: int| 0 <= j < occupied@.len() && occupied@[j] == blocking@[k];
                    assert(occupied@.contains((x, y)));
                }
            }
            self.lemma_blocked_reserved_from_i32();
        }
        Ok(())
    }

    /// Marks every listed in-bounds cell as blocking.
    fn mark_blocked(&mut self, cells: &Vec<(i32, i32)>)
        requires
            old(self).grid_ok(),
        ensures
            final(self).grid_ok(),
            final(self).bounds_spec() == old(self).bounds_spec(),
            forall|x: i32, y: i32| #[trigger] final(self).occupant(x as int, y as int) == old(self).occupant(x as int, y as int),
            forall|x: i32, y: i32|
                #[trigger] final(self).blocked_at(x as int, y as int) == (old(self).blocked_at(x as int, y as int) || (
                cells@.contains((x, y)) && old(self).in_bounds(x as int, y as int))),
    {
        let ghost start = *old(self);
        let mut k: usize = 0;
        while k < cells.len()
            invariant
                self.grid_ok(),
                self.bounds == start.bounds,
                self.cells@ == start.cells@,
                start.grid_ok(),
                k <= cells@.len(),
                forall|x: i32, y: i32|
                    #[trigger] self.blocked_at(x as int, y as int) == (start.blocked_at(x as int, y as int) || (
                    cells@.subrange(0, k as int).contains((x, y)) && start.in_bounds(x as int, y as int))),
            decreases cells@.len() - k,
        {
            let (cx, cy) = cells[k];
            let ghost before = *self;
            match self.index(cx, cy) {
                Some(idx) => {
                    self.blocked.set(idx, true);
                    assert forall|x: i32, y: i32|
                        #[trigger] self.blocked_at(x as int, y as int) == (start.blocked_at(x as int, y as int) || (
                        cells@.subrange(0, k + 1).contains((x, y)) && start.in_bounds(x as int, y as int))) by {
                        assert(cells@.subrange(0, k + 1) =~= cells@.subrange(0, k as int).push((cx, cy)));
                lemma_contains_push(cells@.subrange(0, k as int), (cx, cy), (x, y));
                        if start.in_bounds(x as int, y as int) {
                            self.lemma_index(x as int, y as int);
                            if x != cx || y != cy {
                                if self.local_index(x as int, y as int) == idx {
                                    self.lemma_index_injective(x as int, y as int, cx as int, cy as int);
                                }
                                assert(self.blocked_at(x as int, y as int) == before.blocked_at(x as int, y as int));
                            }
                        }
                    }
                },
                None => {
                    assert forall|x: i32, y: i32|
                        #[trigger] self.blocked_at(x as int, y as int) == (start.blocked_at(x as int, y as int) || (
                        cells@.subrange(0, k + 1).contains((x, y)) && start.in_bounds(x as int, y as int))) by {
                        assert(cells@.subrange(0, k + 1) =~= cells@.subrange(0, k as int).push((cx, cy)));
                lemma_contains_push(cells@.subrange(0, k as int), (cx, cy), (x, y));
                    }
                },
            }
            k = k + 1;
        }
        assert(cells@.subrange(0, k as int) =~= cells@);
        assert forall|x: i32, y: i32| #[trigger] self.occupant(x as int, y as int) == start.occupant(x as int, y as int) by {}
    }

    /// Reserves and blocks the listed cells for `occupant_id` (a wall), or
    /// reports the first conflicting cell and changes nothing.
    pub fn place_cells(&mut self, occupant_id: u32, cells: &Vec<(i32, i32)>) -> (r: Result<(), MapError>)
        requires
            old(self).wf(),
        ensures
            r == conflict_result(old(self).first_conflict(cells@)),
            r is Ok <==> old(self).all_free(cells@),
            r is Err ==> *final(self) == *old(self),
            r is Ok ==> final(self).wf() && final(self).cells_placed(*old(self), occupant_id, cells@),
    {
        match self.can_place_cells(cells) {
            Err(e) => return Err(e),
            Ok(()) => {},
        }
        self.write_cells(cells, occupant_id, true);
        proof {
            assert forall|x: i32, y: i32| #[trigger] self.blocked_at(x as int, y as int) implies self.occupied_at(
                x as int,
                y as int,
            ) by {
                old(self).lemma_blocked_cells(x as int, y as int);
            }
            self.lemma_blocked_reserved_from_i32();
        }
        Ok(())
    }

    /// Frees every listed in-bounds cell.
    pub fn clear_cells(&mut self, cells: &Vec<(i32, i32)>)
        requires
            old(self).wf(),
        ensures
            final(self).wf(),
            final(self).cells_cleared(*old(self), cells@),
    {
        let ghost start = *old(self);
        let mut k: usize = 0;
        while k < cells.len()
            invariant
                self.grid_ok(),
                self.bounds == start.bounds,
                start.grid_ok(),
                k <= cells@.len(),
                forall|x: i32, y: i32|
                    #[trigger] self.occupant(x as int, y as int) == (if cells@.subrange(0, k as int).contains((x, y)) {
                        None::<u32>
                    } else {
                        start.occupant(x as int, y as int)
                    }),
                forall|x: i32, y: i32|
                    #[trigger] self.blocked_at(x as int, y as int) == (start.blocked_at(x as int, y as int) && !cells@.subrange(0, k as int).contains(
                        (x, y),
                    )),
            decreases cells@.len() - k,
        {
            let (cx, cy) = cells[k];
            let ghost before = *self;
            match self.index(cx, cy) {
                Some(idx) => {
                    self.cells.set(idx, None);
                    self.blocked.set(idx, false);
                    assert forall|x: i32, y: i32|
                        #[trigger] self.occupant(x as int, y as int) == (if cells@.subrange(0, k + 1).contains((x, y)) {
                            None::<u32>
                        } else {
                            start.occupant(x as int, y as int)
                        }) by {
                        assert(cells@.subrange(0, k + 1) =~= cells@.subrange(0, k as int).push((cx, cy)));
                lemma_contains_push(cells@.subrange(0, k as int), (cx, cy), (x, y));
                        if start.in_bounds(x as int, y as int) {
                            self.lemma_index(x as int, y as int);
                            if x != cx || y != cy {
                                if self.local_index(x as int, y as int) == idx {
                                    self.lemma_index_injective(x as int, y as int, cx as int, cy as int);
                                }
                                assert(self.occupant(x as int, y as int) == before.occupant(x as int, y as int));
                            }
                        } else {
                            assert(self.occupant(x as int, y as int) == None::<u32>);
                        }
                    }
                    assert forall|x: i32, y: i32|
                        #[trigger] self.blocked_at(x as int, y as int) == (start.blocked_at(x as int, y as int) && !cells@.subrange(0, k + 1).contains(
                            (x, y),
                        )) by {
                        assert(cells@.subrange(0, k + 1) =~= cells@.subrange(0, k as int).push((cx, cy)));
                lemma_contains_push(cells@.subrange(0, k as int), (cx, cy), (x, y));
                        if start.in_bounds(x as int, y as int) {
                            self.lemma_index(x as int, y as int);
                            if x != cx || y != cy {
                                if self.local_index(x as int, y as int) == idx {
                                    self.lemma_index_injective(x as int, y as int, cx as int, cy as int);
                                }
                                assert(self.blocked_at(x as int, y as int) == before.blocked_at(x as int, y as int));
                            }
                        }
                    }
                },
                None => {
                    assert forall|x: i32, y: i32|
                        #[trigger] self.occupant(x as int, y as int) == (if cells@.subrange(0, k + 1).contains((x, y)) {
                            None::<u32>
                        } else {
                            start.occupant(x as int, y as int)
                        }) by {
                        assert(cells@.subrange(0, k + 1) =~= cells@.subrange(0, k as int).push((cx, cy)));
                lemma_contains_push(cells@.subrange(0, k as int), (cx, cy), (x, y));
                        if x == cx && y == cy {
                            assert(!start.in_bounds(x as int, y as int));
                        }
                    }
                    assert forall|x: i32, y: i32|
                        #[trigger] self.blocked_at(x as int, y as int) == (start.blocked_at(x as int, y as int) && !cells@.subrange(0, k + 1).contains(
                            (x, y),
                        )) by {
                        assert(cells@.subrange(0, k + 1) =~= cells@.subrange(0, k as int).push((cx, cy)));
                lemma_contains_push(cells@.subrange(0, k as int), (cx, cy), (x, y));
                    }
                },
            }
            k = k + 1;
        }
        assert(cells@.subrange(0, k as int) =~= cells@);
        proof {
            assert forall|x: i32, y: i32| #[trigger] self.blocked_at(x as int, y as int) implies self.occupied_at(
                x as int,
                y as int,
            ) by {
                start.lemma_blocked_cells(x as int, y as int);
            }
            self.lemma_blocked_reserved_from_i32();
        }
    }
}

} // verus!
