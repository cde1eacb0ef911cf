use vstd::prelude::*;

use crate::buildings::{
    BuildingType, lemma_type_corners,
    PlacementView, flagged_offsets, lemma_flagged_offsets_bounded, lemma_type_footprint_wf, shape_size,
    type_footprint,
};
use crate::map::{MapBounds, bounds_allocatable};
use crate::walls::WallSegment;

use super::entry_logic::square_fits;
use super::pathfinding::ids_distinct;

verus! {

/// Some building reserves cell `(x, y)`.
pub open spec fn building_at(bs: Seq<PlacementView>, x: i32, y: i32) -> bool {
    exists|i: int| 0 <= i < bs.len() && (#[trigger] bs[i]).covers(x, y)
}

/// Some building blocks movement on cell `(x, y)`.
pub open spec fn building_blocks_at(bs: Seq<PlacementView>, x: i32, y: i32) -> bool {
    exists|i: int| 0 <= i < bs.len() && (#[trigger] bs[i]).blocks(x, y)
}

/// Some wall covers cell `(x, y)`.
pub open spec fn wall_at(ws: Seq<WallSegment>, x: i32, y: i32) -> bool {
    exists|j: int| 0 <= j < ws.len() && (#[trigger] ws[j]).cells_spec().contains((x, y))
}

/// Every listed cell lies inside the bounds.
pub open spec fn cells_inside(b: MapBounds, cells: Seq<(i32, i32)>) -> bool {
    forall|k: int| 0 <= k < cells.len() ==> b.has((#[trigger] cells[k]).0 as int, cells[k].1 as int)
}

/// Every building and wall lies inside the bounds.
pub open spec fn objects_inside(b: MapBounds, bs: Seq<PlacementView>, ws: Seq<WallSegment>) -> bool {
    &&& forall|i: int| 0 <= i < bs.len() ==> cells_inside(b, (#[trigger] bs[i]).occupied_cells_spec())
    &&& forall|j: int| 0 <= j < ws.len() ==> cells_inside(b, (#[trigger] ws[j]).cells_spec())
}

/// No cell belongs to two objects.
pub open spec fn objects_disjoint(bs: Seq<PlacementView>, ws: Seq<WallSegment>) -> bool {
    &&& forall|i1: int, i2: int, x: i32, y: i32|
        0 <= i1 < bs.len() && 0 <= i2 < bs.len() && i1 != i2 && #[trigger] bs[i1].covers(x, y) ==> !#[trigger] bs[i2].covers(
            x,
            y,
        )
    &&& forall|i: int, j: int, x: i32, y: i32|
        0 <= i < bs.len() && 0 <= j < ws.len() && #[trigger] bs[i].covers(x, y) ==> !#[trigger] ws[j].cells_spec().contains(
            (x, y),
        )
    &&& forall|j1: int, j2: int, x: i32, y: i32|
        0 <= j1 < ws.len() && 0 <= j2 < ws.len() && j1 != j2 && #[trigger] ws[j1].cells_spec().contains((x, y))
            ==> !#[trigger] ws[j2].cells_spec().contains((x, y))
}

/// The anchor keeps the building and the ring of cells around it inside
/// the `i32` range.
pub open spec fn anchor_in_range(t: BuildingType, x: int, y: int) -> bool {
    &&& i32::MIN < x
    &&& i32::MIN < y
    &&& x + shape_size(t) <= i32::MAX
    &&& y + shape_size(t) <= i32::MAX
}

/// A placement as the layout creates them: the template of its type, no
/// sub-structures, and an anchor in range.
pub open spec fn placement_ok(b: PlacementView) -> bool {
    &&& b.footprint == type_footprint(b.building_type)
    &&& b.components.len() == 0
    &&& anchor_in_range(b.building_type, b.x as int, b.y as int)
}

/// No two walls share an identifier.
pub open spec fn wall_ids_distinct(ws: Seq<WallSegment>) -> bool {
    forall|a: int, b: int| 0 <= a < ws.len() && 0 <= b < ws.len() && a != b ==> (#[trigger] ws[a]).id != (#[trigger] ws[b]).id
}

/// The geometric invariant of a layout.
pub open spec fn layout_ok(b: MapBounds, bs: Seq<PlacementView>, ws: Seq<WallSegment>) -> bool {
    &&& forall|i: int| 0 <= i < bs.len() ==> placement_ok(#[trigger] bs[i])
    &&& forall|j: int| 0 <= j < ws.len() ==> (#[trigger] ws[j]).axis_aligned()
    &&& objects_inside(b, bs, ws)
    &&& objects_disjoint(bs, ws)
    &&& ids_distinct(bs)
    &&& wall_ids_distinct(ws)
}

/// Cells kept free between every placed object and the canvas boundary.
pub const CANVAS_MARGIN: i32 = 50;

/// The lower boundary after moving it down by the margin until it is at
/// least a margin below `target`.
pub open spec fn margin_low(lo: int, target: int) -> int
    decreases (if target - lo >= CANVAS_MARGIN { 0 } else { CANVAS_MARGIN - (target - lo) }),
{
    if target - lo >= CANVAS_MARGIN {
        lo
    } else {
        margin_low(lo - CANVAS_MARGIN, target)
    }
}

/// The upper boundary after moving it up by the margin until it is at
/// least a margin above `target`.
pub open spec fn margin_high(hi: int, target: int) -> int
    decreases (if hi - target >= CANVAS_MARGIN { 0 } else { CANVAS_MARGIN - (hi - target) }),
{
    if hi - target >= CANVAS_MARGIN {
        hi
    } else {
        margin_high(hi + CANVAS_MARGIN, target)
    }
}

pub open spec fn fits_i32(v: int) -> bool {
    i32::MIN <= v <= i32::MAX
}

/// The bounds grown until the extent `[min_x, max_x) x [min_y, max_y)` has
/// the margin on every side; `None` when they leave the `i32` range.
pub open spec fn grown_bounds(b: MapBounds, min_x: int, min_y: int, max_x: int, max_y: int) -> Option<MapBounds> {
    let a = margin_low(b.min_x as int, min_x);
    let c = margin_low(b.min_y as int, min_y);
    let d = margin_high(b.max_x as int, max_x);
    let e = margin_high(b.max_y as int, max_y);
    if fits_i32(a) && fits_i32(c) && fits_i32(d) && fits_i32(e) {
        Some(MapBounds { min_x: a as i32, min_y: c as i32, max_x: d as i32, max_y: e as i32 })
    } else {
        None
    }
}

/// The canvas an object with this extent is placed on: the grown bounds,
/// provided a map of them can be made when they differ from `b`.
pub open spec fn canvas_for(b: MapBounds, min_x: int, min_y: int, max_x: int, max_y: int) -> Option<MapBounds> {
    match grown_bounds(b, min_x, min_y, max_x, max_y) {
        Some(nb) => if nb == b || bounds_allocatable(nb) {
            Some(nb)
        } else {
            None
        },
        None => None,
    }
}

/// Growing only moves a boundary outwards, and leaves the margin.
pub proof fn lemma_margin(lo: int, target: int)
    ensures
        margin_low(lo, target) <= lo,
        target - margin_low(lo, target) >= CANVAS_MARGIN,
        margin_high(lo, target) >= lo,
        margin_high(lo, target) - target >= CANVAS_MARGIN,
    decreases (if target - lo >= CANVAS_MARGIN { 0 } else { CANVAS_MARGIN - (target - lo) }) + (if lo - target
        >= CANVAS_MARGIN {
        0
    } else {
        CANVAS_MARGIN - (lo - target)
    }),
{
    if target - lo < CANVAS_MARGIN {
        lemma_margin_low(lo - CANVAS_MARGIN, target);
    }
    if lo - target < CANVAS_MARGIN {
        lemma_margin_high(lo + CANVAS_MARGIN, target);
    }
}

proof fn lemma_margin_low(lo: int, target: int)
    ensures
        margin_low(lo, target) <= lo,
        target - margin_low(lo, target) >= CANVAS_MARGIN,
    decreases (if target - lo >= CANVAS_MARGIN { 0 } else { CANVAS_MARGIN - (target - lo) }),
{
    if target - lo < CANVAS_MARGIN {
        lemma_margin_low(lo - CANVAS_MARGIN, target);
    }
}

proof fn lemma_margin_high(hi: int, target: int)
    ensures
        margin_high(hi, target) >= hi,
        margin_high(hi, target) - target >= CANVAS_MARGIN,
    decreases (if hi - target >= CANVAS_MARGIN { 0 } else { CANVAS_MARGIN - (hi - target) }),
{
    if hi - target < CANVAS_MARGIN {
        lemma_margin_high(hi + CANVAS_MARGIN, target);
    }
}

/// The canvas an object is placed on contains the previous canvas and
/// leaves at least `CANVAS_MARGIN` free cells between the object's extent
/// `[min_x, max_x) x [min_y, max_y)` and each of the four boundaries.
pub proof fn lemma_canvas_keeps_margin(b: MapBounds, min_x: int, min_y: int, max_x: int, max_y: int)
    requires
        canvas_for(b, min_x, min_y, max_x, max_y) is Some,
    ensures
        ({
            let nb = canvas_for(b, min_x, min_y, max_x, max_y)->0;
            &&& nb.min_x <= b.min_x && nb.min_y <= b.min_y
            &&& b.max_x <= nb.max_x && b.max_y <= nb.max_y
            &&& min_x - nb.min_x >= CANVAS_MARGIN && min_y - nb.min_y >= CANVAS_MARGIN
            &&& nb.max_x - max_x >= CANVAS_MARGIN && nb.max_y - max_y >= CANVAS_MARGIN
        }),
{
    lemma_margin(b.min_x as int, min_x);
    lemma_margin(b.min_y as int, min_y);
    lemma_margin(b.max_x as int, max_x);
    lemma_margin(b.max_y as int, max_y);
}

fn grow_low(lo: i32, target: i32) -> (r: Option<i32>)
    ensures
        r == (if fits_i32(margin_low(lo as int, target as int)) {
            Some(margin_low(lo as int, target as int) as i32)
        } else {
            None::<i32>
        }),
{
    let mut cur = lo;
    while (target as i64) - (cur as i64) < CANVAS_MARGIN as i64
        invariant
            margin_low(cur as int, target as int) == margin_low(lo as int, target as int),
        decreases (if target - cur >= CANVAS_MARGIN { 0 } else { CANVAS_MARGIN - (target - cur) }),
    {
        match cur.checked_sub(CANVAS_MARGIN) {
            Some(v) => cur = v,
            None => {
                proof {
                    lemma_margin_low(cur - CANVAS_MARGIN, target as int);
                }
                return None;
            },
        }
    }
    Some(cur)
}

fn grow_high(hi: i32, target: i32) -> (r: Option<i32>)
    ensures
        r == (if fits_i32(margin_high(hi as int, target as int)) {
            Some(margin_high(hi as int, target as int) as i32)
        } else {
            None::<i32>
        }),
{
    let mut cur = hi;
    while (cur as i64) - (target as i64) < CANVAS_MARGIN as i64
        invariant
            margin_high(cur as int, target as int) == margin_high(hi as int, target as int),
        decreases (if cur - target >= CANVAS_MARGIN { 0 } else { CANVAS_MARGIN - (cur - target) }),
    {
        match cur.checked_add(CANVAS_MARGIN) {
            Some(v) => cur = v,
            None => {
                proof {
                    lemma_margin_high(cur + CANVAS_MARGIN, target as int);
                }
                return None;
            },
        }
    }
    Some(cur)
}

/// The bounds grown around an extent, as `grown_bounds` describes.
pub fn grow_bounds(b: MapBounds, min_x: i32, min_y: i32, max_x: i32, max_y: i32) -> (r: Option<MapBounds>)
    ensures
        r == grown_bounds(b, min_x as int, min_y as int, max_x as int, max_y as int),
{
    let a = match grow_low(b.min_x, min_x) {
        Some(v) => v,
        None => return None,
    };
    let c = match grow_low(b.min_y, min_y) {
        Some(v) => v,
        None => return None,
    };
    let d = match grow_high(b.max_x, max_x) {
        Some(v) => v,
        None => return None,
    };
    let e = match grow_high(b.max_y, max_y) {
        Some(v) => v,
        None => return None,
    };
    Some(MapBounds { min_x: a, min_y: c, max_x: d, max_y: e })
}

/// The cells of a fitting placement lie in its `width x height` box.
pub proof fn lemma_cells_in_box(b: PlacementView)
    requires
        b.fits(),
    ensures
        forall|k: int|
            0 <= k < b.occupied_cells_spec().len() ==> b.x <= (#[trigger] b.occupied_cells_spec()[k]).0 < b.x + b.footprint.width
                && b.y <= b.occupied_cells_spec()[k].1 < b.y + b.footprint.height,
        forall|x: i32, y: i32|
            #[trigger] b.covers(x, y) ==> b.x <= x < b.x + b.footprint.width && b.y <= y < b.y + b.footprint.height,
{
    let fp = b.footprint;
    lemma_flagged_offsets_bounded(fp.occupied, fp.width, fp.height);
    let offs = flagged_offsets(fp.occupied, fp.width);
    assert forall|k: int|
        0 <= k < b.occupied_cells_spec().len() implies b.x <= (#[trigger] b.occupied_cells_spec()[k]).0 < b.x + b.footprint.width
            && b.y <= b.occupied_cells_spec()[k].1 < b.y + b.footprint.height by {
        assert(offs[k].0 < fp.width && offs[k].1 < fp.height);
    }
    assert forall|x: i32, y: i32| #[trigger] b.covers(x, y) implies b.x <= x < b.x + b.footprint.width && b.y <= y
        < b.y + b.footprint.height by {
        let k = choose|k: int| 0 <= k < b.occupied_cells_spec().len() && b.occupied_cells_spec()[k] == (x, y);
        assert(offs[k].0 < fp.width && offs[k].1 < fp.height);
    }
}

/// What a placement made by the layout satisfies.
pub proof fn lemma_placement_ok_facts(b: PlacementView)
    requires
        placement_ok(b),
    ensures
        b.fits(),
        b.footprint.width == shape_size(b.building_type),
        b.footprint.height == shape_size(b.building_type),
        square_fits(b.x as int, b.y as int, shape_size(b.building_type) as int),
        forall|x: i32, y: i32|
            #[trigger] b.covers(x, y) ==> b.x <= x < b.x + shape_size(b.building_type) && b.y <= y < b.y + shape_size(
                b.building_type,
            ),
        forall|x: i32, y: i32| #[trigger] b.blocks(x, y) ==> b.covers(x, y),
{
    lemma_type_footprint_wf(b.building_type);
    lemma_cells_in_box(b);
    crate::buildings::lemma_blocking_within_occupied(b);
    assert forall|x: i32, y: i32| #[trigger] b.blocks(x, y) implies b.covers(x, y) by {
        let k = choose|k: int| 0 <= k < b.blocking_cells_spec().len() && b.blocking_cells_spec()[k] == (x, y);
        assert(b.occupied_cells_spec().contains(b.blocking_cells_spec()[k]));
    }
}

/// Cells of a list after appending a building.
pub proof fn lemma_building_at_push(bs: Seq<PlacementView>, p: PlacementView, x: i32, y: i32)
    ensures
        building_at(bs.push(p), x, y) == (building_at(bs, x, y) || p.covers(x, y)),
        building_blocks_at(bs.push(p), x, y) == (building_blocks_at(bs, x, y) || p.blocks(x, y)),
{
    let s = bs.push(p);
    if building_at(bs, x, y) {
        let i = choose|i: int| 0 <= i < bs.len() && (#[trigger] bs[i]).covers(x, y);
        assert(s[i] == bs[i]);
    }
    if p.covers(x, y) {
        assert(s[bs.len() as int] == p);
    }
    if building_at(s, x, y) {
        let i = choose|i: int| 0 <= i < s.len() && (#[trigger] s[i]).covers(x, y);
        if i < bs.len() {
            assert(s[i] == bs[i]);
        }
    }
    if building_blocks_at(bs, x, y) {
        let i = choose|i: int| 0 <= i < bs.len() && (#[trigger] bs[i]).blocks(x, y);
        assert(s[i] == bs[i]);
    }
    if p.blocks(x, y) {
        assert(s[bs.len() as int] == p);
    }
    if building_blocks_at(s, x, y) {
        let i = choose|i: int| 0 <= i < s.len() && (#[trigger] s[i]).blocks(x, y);
        if i < bs.len() {
            assert(s[i] == bs[i]);
        }
    }
}

/// Cells of a list after appending a wall.
pub proof fn lemma_wall_at_push(ws: Seq<WallSegment>, w: WallSegment, x: i32, y: i32)
    ensures
        wall_at(ws.push(w), x, y) == (wall_at(ws, x, y) || w.cells_spec().contains((x, y))),
{
    let s = ws.push(w);
    if wall_at(ws, x, y) {
        let j = choose|j: int| 0 <= j < ws.len() && (#[trigger] ws[j]).cells_spec().contains((x, y));
        assert(s[j] == ws[j]);
    }
    if w.cells_spec().contains((x, y)) {
        assert(s[ws.len() as int] == w);
    }
    if wall_at(s, x, y) {
        let j = choose|j: int| 0 <= j < s.len() && (#[trigger] s[j]).cells_spec().contains((x, y));
        if j < ws.len() {
            assert(s[j] == ws[j]);
        }
    }
}

/// Bounds `outer` contain bounds `inner`.
pub open spec fn bounds_within(inner: MapBounds, outer: MapBounds) -> bool {
    &&& outer.min_x <= inner.min_x
    &&& outer.min_y <= inner.min_y
    &&& inner.max_x <= outer.max_x
    &&& inner.max_y <= outer.max_y
}

/// A layout stays valid on larger bounds.
pub proof fn lemma_layout_grow(inner: MapBounds, outer: MapBounds, bs: Seq<PlacementView>, ws: Seq<WallSegment>)
    requires
        layout_ok(inner, bs, ws),
        bounds_within(inner, outer),
    ensures
        layout_ok(outer, bs, ws),
{
    assert forall|i: int| 0 <= i < bs.len() implies cells_inside(outer, (#[trigger] bs[i]).occupied_cells_spec()) by {
        assert(cells_inside(inner, bs[i].occupied_cells_spec()));
    }
    assert forall|j: int| 0 <= j < ws.len() implies cells_inside(outer, (#[trigger] ws[j]).cells_spec()) by {
        assert(cells_inside(inner, ws[j].cells_spec()));
    }
}

/// New buildings that may join a layout: made by the layout, on the canvas,
/// on free cells, apart from each other, and with identifiers of their own.
pub open spec fn additions_ok(b: MapBounds, bs: Seq<PlacementView>, ws: Seq<WallSegment>, news: Seq<PlacementView>) -> bool {
    &&& forall|k: int| 0 <= k < news.len() ==> placement_ok(#[trigger] news[k])
    &&& forall|k: int| 0 <= k < news.len() ==> cells_inside(b, (#[trigger] news[k]).occupied_cells_spec())
    &&& forall|k: int, x: i32, y: i32|
        0 <= k < news.len() && #[trigger] news[k].covers(x, y) ==> !building_at(bs, x, y) && !wall_at(ws, x, y)
    &&& forall|k1: int, k2: int, x: i32, y: i32|
        0 <= k1 < news.len() && 0 <= k2 < news.len() && k1 != k2 && #[trigger] news[k1].covers(x, y) ==> !#[trigger] news[k2].covers(
            x,
            y,
        )
    &&& forall|k1: int, k2: int|
        0 <= k1 < news.len() && 0 <= k2 < news.len() && k1 != k2 ==> (#[trigger] news[k1]).id != (#[trigger] news[k2]).id
    &&& forall|k: int, i: int| 0 <= k < news.len() && 0 <= i < bs.len() ==> (#[trigger] news[k]).id != (#[trigger] bs[i]).id
}

/// Appending suitable new buildings keeps the layout valid.
pub proof fn lemma_layout_append(b: MapBounds, bs: Seq<PlacementView>, ws: Seq<WallSegment>, news: Seq<PlacementView>)
    requires
        layout_ok(b, bs, ws),
        additions_ok(b, bs, ws, news),
    ensures
        layout_ok(b, bs + news, ws),
{
    let all = bs + news;
    let n = bs.len() as int;
    assert forall|i: int| 0 <= i < all.len() implies placement_ok(#[trigger] all[i]) by {
        if i < n {
            assert(all[i] == bs[i]);
        } else {
            assert(all[i] == news[i - n]);
        }
    }
    assert forall|i: int| 0 <= i < all.len() implies cells_inside(b, (#[trigger] all[i]).occupied_cells_spec()) by {
        if i < n {
            assert(all[i] == bs[i]);
        } else {
            assert(all[i] == news[i - n]);
        }
    }
    assert forall|i1: int, i2: int, x: i32, y: i32|
        0 <= i1 < all.len() && 0 <= i2 < all.len() && i1 != i2 && #[trigger] all[i1].covers(x, y) implies !#[trigger] all[i2].covers(
        x,
        y,
    ) by {
        if i1 < n && i2 < n {
            assert(all[i1] == bs[i1] && all[i2] == bs[i2]);
        } else if i1 < n {
            assert(all[i1] == bs[i1] && all[i2] == news[i2 - n]);
            if news[i2 - n].covers(x, y) {
                assert(building_at(bs, x, y));
            }
        } else if i2 < n {
            assert(all[i1] == news[i1 - n] && all[i2] == bs[i2]);
            assert(!building_at(bs, x, y));
        } else {
            assert(all[i1] == news[i1 - n] && all[i2] == news[i2 - n]);
        }
    }
    assert forall|i: int, j: int, x: i32, y: i32|
        0 <= i < all.len() && 0 <= j < ws.len() && #[trigger] all[i].covers(x, y) implies !#[trigger] ws[j].cells_spec().contains(
        (x, y),
    ) by {
        if i < n {
            assert(all[i] == bs[i]);
        } else {
            assert(all[i] == news[i - n]);
            assert(!wall_at(ws, x, y));
        }
    }
    assert forall|i1: int, i2: int| 0 <= i1 < all.len() && 0 <= i2 < all.len() && i1 != i2 implies (#[trigger] all[i1]).id
        != (#[trigger] all[i2]).id by {
        if i1 < n && i2 < n {
            assert(all[i1] == bs[i1] && all[i2] == bs[i2]);
        } else if i1 < n {
            assert(all[i1] == bs[i1] && all[i2] == news[i2 - n]);
        } else if i2 < n {
            assert(all[i1] == news[i1 - n] && all[i2] == bs[i2]);
        } else {
            assert(all[i1] == news[i1 - n] && all[i2] == news[i2 - n]);
        }
    }
}

/// The cells of a line lie between its end coordinates.
pub proof fn lemma_wall_cells_in_box(w: WallSegment)
    ensures
        forall|x: i32, y: i32|
            #[trigger] w.cells_spec().contains((x, y)) ==> crate::walls::min_i32(w.start_x, w.end_x) <= x <= crate::walls::max_i32(
                w.start_x,
                w.end_x,
            ) && crate::walls::min_i32(w.start_y, w.end_y) <= y <= crate::walls::max_i32(w.start_y, w.end_y),
{
    assert forall|x: i32, y: i32| #[trigger] w.cells_spec().contains((x, y)) implies crate::walls::min_i32(w.start_x, w.end_x)
        <= x <= crate::walls::max_i32(w.start_x, w.end_x) && crate::walls::min_i32(w.start_y, w.end_y) <= y
        <= crate::walls::max_i32(w.start_y, w.end_y) by {
        crate::walls::lemma_line_cells_cover(w.start_x, w.start_y, w.end_x, w.end_y, x, y);
    }
}

/// Appending a straight wall on free cells with an identifier of its own
/// keeps the layout valid.
pub proof fn lemma_layout_add_wall(b: MapBounds, bs: Seq<PlacementView>, ws: Seq<WallSegment>, w: WallSegment)
    requires
        layout_ok(b, bs, ws),
        w.axis_aligned(),
        cells_inside(b, w.cells_spec()),
        forall|x: i32, y: i32| #[trigger] w.cells_spec().contains((x, y)) ==> !building_at(bs, x, y) && !wall_at(ws, x, y),
        forall|j: int| 0 <= j < ws.len() ==> (#[trigger] ws[j]).id != w.id,
    ensures
        layout_ok(b, bs, ws.push(w)),
{
    let all = ws.push(w);
    let n = ws.len() as int;
    assert forall|j: int| 0 <= j < all.len() implies (#[trigger] all[j]).axis_aligned() by {
        if j < n {
            assert(all[j] == ws[j]);
        }
    }
    assert forall|j: int| 0 <= j < all.len() implies cells_inside(b, (#[trigger] all[j]).cells_spec()) by {
        if j < n {
            assert(all[j] == ws[j]);
        }
    }
    assert forall|i: int, j: int, x: i32, y: i32|
        0 <= i < bs.len() && 0 <= j < all.len() && #[trigger] bs[i].covers(x, y) implies !#[trigger] all[j].cells_spec().contains(
        (x, y),
    ) by {
        if j < n {
            assert(all[j] == ws[j]);
        } else if all[j].cells_spec().contains((x, y)) {
            assert(building_at(bs, x, y));
        }
    }
    assert forall|j1: int, j2: int, x: i32, y: i32|
        0 <= j1 < all.len() && 0 <= j2 < all.len() && j1 != j2 && #[trigger] all[j1].cells_spec().contains((x, y)) implies !#[trigger] all[j2].cells_spec().contains(
        (x, y),
    ) by {
        if j1 < n && j2 < n {
            assert(all[j1] == ws[j1] && all[j2] == ws[j2]);
        } else if j1 < n {
            assert(all[j1] == ws[j1]);
            assert(wall_at(ws, x, y));
        } else {
            assert(all[j2] == ws[j2]);
            if ws[j2].cells_spec().contains((x, y)) {
                assert(wall_at(ws, x, y));
            }
        }
    }
    assert forall|j1: int, j2: int| 0 <= j1 < all.len() && 0 <= j2 < all.len() && j1 != j2 implies (#[trigger] all[j1]).id
        != (#[trigger] all[j2]).id by {
        if j1 < n {
            assert(all[j1] == ws[j1]);
        }
        if j2 < n {
            assert(all[j2] == ws[j2]);
        }
    }
}

/// Cells of two lists of buildings put together.
pub proof fn lemma_building_at_concat(a: Seq<PlacementView>, b: Seq<PlacementView>, x: i32, y: i32)
    ensures
        building_at(a + b, x, y) == (building_at(a, x, y) || building_at(b, x, y)),
        building_blocks_at(a + b, x, y) == (building_blocks_at(a, x, y) || building_blocks_at(b, x, y)),
{
    let s = a + b;
    if building_at(a, x, y) {
        let i = choose|i: int| 0 <= i < a.len() && (#[trigger] a[i]).covers(x, y);
        assert(s[i] == a[i]);
    }
    if building_at(b, x, y) {
        let i = choose|i: int| 0 <= i < b.len() && (#[trigger] b[i]).covers(x, y);
        assert(s[a.len() + i] == b[i]);
    }
    if building_at(s, x, y) {
        let i = choose|i: int| 0 <= i < s.len() && (#[trigger] s[i]).covers(x, y);
        if i < a.len() {
            assert(s[i] == a[i]);
        } else {
            assert(s[i] == b[i - a.len()]);
        }
    }
    if building_blocks_at(a, x, y) {
        let i = choose|i: int| 0 <= i < a.len() && (#[trigger] a[i]).blocks(x, y);
        assert(s[i] == a[i]);
    }
    if building_blocks_at(b, x, y) {
        let i = choose|i: int| 0 <= i < b.len() && (#[trigger] b[i]).blocks(x, y);
        assert(s[a.len() + i] == b[i]);
    }
    if building_blocks_at(s, x, y) {
        let i = choose|i: int| 0 <= i < s.len() && (#[trigger] s[i]).blocks(x, y);
        if i < a.len() {
            assert(s[i] == a[i]);
        } else {
            assert(s[i] == b[i - a.len()]);
        }
    }
}

/// `sub` picks the buildings of `bs` at the increasing positions `idx`.
pub open spec fn picks(bs: Seq<PlacementView>, sub: Seq<PlacementView>, idx: Seq<int>) -> bool {
    &&& sub.len() == idx.len()
    &&& forall|a: int| 0 <= a < idx.len() ==> 0 <= #[trigger] idx[a] < bs.len() && sub[a] == bs[idx[a]]
    &&& forall|a: int, b: int| 0 <= a < b < idx.len() ==> #[trigger] idx[a] < #[trigger] idx[b]
}

/// A selection of the buildings of a valid layout is a valid layout.
pub proof fn lemma_layout_sublist(b: MapBounds, bs: Seq<PlacementView>, ws: Seq<WallSegment>, sub: Seq<PlacementView>, idx: Seq<int>)
    requires
        layout_ok(b, bs, ws),
        picks(bs, sub, idx),
    ensures
        layout_ok(b, sub, ws),
        forall|x: i32, y: i32| #[trigger] building_at(sub, x, y) ==> building_at(bs, x, y),
{
    assert forall|i: int| 0 <= i < sub.len() implies placement_ok(#[trigger] sub[i]) by {
        assert(sub[i] == bs[idx[i]]);
    }
    assert forall|i: int| 0 <= i < sub.len() implies cells_inside(b, (#[trigger] sub[i]).occupied_cells_spec()) by {
        assert(sub[i] == bs[idx[i]]);
    }
    assert forall|i1: int, i2: int, x: i32, y: i32|
        0 <= i1 < sub.len() && 0 <= i2 < sub.len() && i1 != i2 && #[trigger] sub[i1].covers(x, y) implies !#[trigger] sub[i2].covers(
        x,
        y,
    ) by {
        assert(sub[i1] == bs[idx[i1]] && sub[i2] == bs[idx[i2]]);
        if i1 < i2 {
            assert(idx[i1] < idx[i2]);
        } else {
            assert(idx[i2] < idx[i1]);
        }
    }
    assert forall|i: int, j: int, x: i32, y: i32|
        0 <= i < sub.len() && 0 <= j < ws.len() && #[trigger] sub[i].covers(x, y) implies !#[trigger] ws[j].cells_spec().contains(
        (x, y),
    ) by {
        assert(sub[i] == bs[idx[i]]);
    }
    assert forall|i1: int, i2: int| 0 <= i1 < sub.len() && 0 <= i2 < sub.len() && i1 != i2 implies (#[trigger] sub[i1]).id
        != (#[trigger] sub[i2]).id by {
        assert(sub[i1] == bs[idx[i1]] && sub[i2] == bs[idx[i2]]);
        if i1 < i2 {
            assert(idx[i1] < idx[i2]);
        } else {
            assert(idx[i2] < idx[i1]);
        }
    }
    assert forall|x: i32, y: i32| #[trigger] building_at(sub, x, y) implies building_at(bs, x, y) by {
        let i = choose|i: int| 0 <= i < sub.len() && (#[trigger] sub[i]).covers(x, y);
        assert(sub[i] == bs[idx[i]]);
    }
}

/// Filtering with predicates that agree on every element gives the same list.
pub proof fn lemma_filter_equiv(s: Seq<PlacementView>, p: spec_fn(PlacementView) -> bool, q: spec_fn(PlacementView) -> bool)
    requires
        forall|i: int| 0 <= i < s.len() ==> p(#[trigger] s[i]) == q(s[i]),
    ensures
        s.filter(p) == s.filter(q),
    decreases s.len(),
{
    reveal(Seq::filter);
    if s.len() > 0 {
        assert forall|i: int| 0 <= i < s.drop_last().len() implies p(#[trigger] s.drop_last()[i]) == q(s.drop_last()[i]) by {
            assert(s.drop_last()[i] == s[i]);
        }
        lemma_filter_equiv(s.drop_last(), p, q);
        assert(p(s[s.len() - 1]) == q(s[s.len() - 1]));
    }
}

/// Cells and layout after removing the wall at position `j`.
pub proof fn lemma_remove_wall(b: MapBounds, bs: Seq<PlacementView>, ws: Seq<WallSegment>, j: int, x: i32, y: i32)
    requires
        layout_ok(b, bs, ws),
        0 <= j < ws.len(),
    ensures
        layout_ok(b, bs, ws.remove(j)),
        wall_at(ws, x, y) == (ws[j].cells_spec().contains((x, y)) || wall_at(ws.remove(j), x, y)),
        ws[j].cells_spec().contains((x, y)) ==> !wall_at(ws.remove(j), x, y) && !building_at(bs, x, y)
            && !building_blocks_at(bs, x, y),
{
    let r = ws.remove(j);
    assert forall|t: int| 0 <= t < r.len() implies #[trigger] r[t] == ws[if t < j { t } else { t + 1 }] by {}
    if wall_at(ws, x, y) {
        let t = choose|t: int| 0 <= t < ws.len() && (#[trigger] ws[t]).cells_spec().contains((x, y));
        if t < j {
            assert(r[t] == ws[t]);
        } else if t > j {
            assert(r[t - 1] == ws[t]);
        }
    }
    if wall_at(r, x, y) {
        let t = choose|t: int| 0 <= t < r.len() && (#[trigger] r[t]).cells_spec().contains((x, y));
        if t < j {
            assert(r[t] == ws[t]);
        } else {
            assert(r[t] == ws[t + 1]);
        }
    }
    if ws[j].cells_spec().contains((x, y)) {
        if wall_at(r, x, y) {
            let t = choose|t: int| 0 <= t < r.len() && (#[trigger] r[t]).cells_spec().contains((x, y));
            if t < j {
                assert(r[t] == ws[t]);
            } else {
                assert(r[t] == ws[t + 1]);
            }
        }
        if building_at(bs, x, y) {
            let i = choose|i: int| 0 <= i < bs.len() && (#[trigger] bs[i]).covers(x, y);
        }
        if building_blocks_at(bs, x, y) {
            let i = choose|i: int| 0 <= i < bs.len() && (#[trigger] bs[i]).blocks(x, y);
            lemma_placement_ok_facts(bs[i]);
            assert(bs[i].covers(x, y));
        }
    }
    assert forall|t: int| 0 <= t < r.len() implies (#[trigger] r[t]).axis_aligned() by {
        assert(r[t] == ws[if t < j { t } else { t + 1 }]);
    }
    assert forall|t: int| 0 <= t < r.len() implies cells_inside(b, (#[trigger] r[t]).cells_spec()) by {
        assert(r[t] == ws[if t < j { t } else { t + 1 }]);
    }
    assert forall|i: int, t: int, cx: i32, cy: i32|
        0 <= i < bs.len() && 0 <= t < r.len() && #[trigger] bs[i].covers(cx, cy) implies !#[trigger] r[t].cells_spec().contains(
        (cx, cy),
    ) by {
        assert(r[t] == ws[if t < j { t } else { t + 1 }]);
    }
    assert forall|t1: int, t2: int, cx: i32, cy: i32|
        0 <= t1 < r.len() && 0 <= t2 < r.len() && t1 != t2 && #[trigger] r[t1].cells_spec().contains((cx, cy)) implies !#[trigger] r[t2].cells_spec().contains(
        (cx, cy),
    ) by {
        assert(r[t1] == ws[if t1 < j { t1 } else { t1 + 1 }]);
        assert(r[t2] == ws[if t2 < j { t2 } else { t2 + 1 }]);
    }
    assert forall|t1: int, t2: int| 0 <= t1 < r.len() && 0 <= t2 < r.len() && t1 != t2 implies (#[trigger] r[t1]).id
        != (#[trigger] r[t2]).id by {
        assert(r[t1] == ws[if t1 < j { t1 } else { t1 + 1 }]);
        assert(r[t2] == ws[if t2 < j { t2 } else { t2 + 1 }]);
    }
}

/// A building of the layout's templates whose cells lie inside the bounds
/// has its whole box inside them.
pub proof fn lemma_anchor_from_cells(b: PlacementView, bounds: MapBounds)
    requires
        b.footprint == type_footprint(b.building_type),
        b.fits(),
        cells_inside(bounds, b.occupied_cells_spec()),
    ensures
        bounds.min_x <= b.x,
        bounds.min_y <= b.y,
        b.x + shape_size(b.building_type) <= bounds.max_x,
        b.y + shape_size(b.building_type) <= bounds.max_y,
{
    let t = b.building_type;
    let s = shape_size(t) as int;
    lemma_type_corners(t);
    let offs = b.footprint.occupied_offsets_spec();
    let k1 = choose|k: int| 0 <= k < offs.len() && offs[k] == ((s - 1) as usize, 0usize);
    let k2 = choose|k: int| 0 <= k < offs.len() && offs[k] == (0usize, (s - 1) as usize);
    let c1 = b.occupied_cells_spec()[k1];
    let c2 = b.occupied_cells_spec()[k2];
    assert(c1 == ((b.x + (s - 1)) as i32, (b.y + 0) as i32));
    assert(c2 == ((b.x + 0) as i32, (b.y + (s - 1)) as i32));
    assert(bounds.has(c1.0 as int, c1.1 as int));
    assert(bounds.has(c2.0 as int, c2.1 as int));
}

} // verus!
