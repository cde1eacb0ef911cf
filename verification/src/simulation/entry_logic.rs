use vstd::prelude::*;

use crate::buildings::{BuildingType, EntryPoint};
use crate::map::CellMap;
use crate::walls::WallSegment;

verus! {

/// Whether workers may enter through cell `(x, y)`: it is on the map and
/// does not block movement.
pub open spec fn cell_available(map: CellMap, x: int, y: int) -> bool {
    map.in_bounds(x, y) && !map.blocked_at(x, y)
}

/// The first available candidate from position `i` on.
pub open spec fn first_available_from(map: CellMap, cells: Seq<(i32, i32)>, i: int) -> Option<EntryPoint>
    decreases cells.len() - i,
{
    if i < 0 || i >= cells.len() {
        None
    } else if cell_available(map, cells[i].0 as int, cells[i].1 as int) {
        Some(EntryPoint { x: cells[i].0, y: cells[i].1 })
    } else {
        first_available_from(map, cells, i + 1)
    }
}

pub open spec fn first_available_spec(map: CellMap, cells: Seq<(i32, i32)>) -> Option<EntryPoint> {
    first_available_from(map, cells, 0)
}

/// A found entry is on the map and does not block.
pub proof fn lemma_first_available_ok(map: CellMap, cells: Seq<(i32, i32)>, i: int)
    ensures
        first_available_from(map, cells, i) matches Some(e) ==> cell_available(map, e.x as int, e.y as int),
    decreases cells.len() - i,
{
    if 0 <= i < cells.len() && !cell_available(map, cells[i].0 as int, cells[i].1 as int) {
        lemma_first_available_ok(map, cells, i + 1);
    }
}

/// Cell `i` of the perimeter ring of an `n x n` square anchored at `(x, y)`,
/// walking clockwise: the bottom row from right to left, the left column
/// upwards, the top row from left to right, the right column downwards.
pub open spec fn ring_cell(x: int, y: int, n: int, i: int) -> (i32, i32) {
    if i < n {
        ((x + n - 1 - i) as i32, (y - 1) as i32)
    } else if i < 2 * n {
        ((x - 1) as i32, (y + (i - n)) as i32)
    } else if i < 3 * n {
        ((x + (i - 2 * n)) as i32, (y + n) as i32)
    } else {
        ((x + n) as i32, (y + n - 1 - (i - 3 * n)) as i32)
    }
}

pub open spec fn ring_spec(x: int, y: int, n: int) -> Seq<(i32, i32)> {
    Seq::new((4 * n) as nat, |i: int| ring_cell(x, y, n, i))
}

/// The four diagonal corner cells, starting at the bottom-right one and
/// going clockwise.
pub open spec fn corners_spec(x: int, y: int, n: int) -> Seq<(i32, i32)> {
    seq![
        ((x + n) as i32, (y - 1) as i32),
        ((x - 1) as i32, (y - 1) as i32),
        ((x - 1) as i32, (y + n) as i32),
        ((x + n) as i32, (y + n) as i32),
    ]
}

/// `s` rotated left by `k` positions.
pub open spec fn rotated<A>(s: Seq<A>, k: int) -> Seq<A> {
    s.subrange(k, s.len() as int) + s.subrange(0, k)
}

/// Position of the preferred entry on the bottom side counted from the
/// left: `floor(n/2)`, except the first cell of a 2-cell side.
pub open spec fn bottom_gate_offset(n: int) -> int {
    if n == 2 {
        0
    } else {
        n / 2
    }
}

/// Position of the preferred entry along its side in clockwise order; the
/// same position is used on every side, so for 2, 3 and 4 cell squares it
/// is always the second cell walking clockwise.
pub open spec fn gate_offset(n: int) -> int {
    n - 1 - bottom_gate_offset(n)
}

/// Entry candidates in preference order for a square whose entry side is
/// rotated clockwise `r` times from the bottom: the whole perimeter ring
/// starting at the preferred cell, then the corners.
pub open spec fn entry_candidates(x: int, y: int, n: int, r: int) -> Seq<(i32, i32)> {
    rotated(ring_spec(x, y, n), (r % 4) * n + gate_offset(n)) + rotated(corners_spec(x, y, n), r % 4)
}

/// Whether `wall` covers the cell `i` steps right of `(x0, y)`.
pub open spec fn covers_right_of(wall: WallSegment, x0: int, i: int, y: int) -> bool {
    wall.covers(x0 + i, y)
}

/// Whether `wall` covers the cell `i` steps above `(x, y0)`.
pub open spec fn covers_above(wall: WallSegment, x: int, y0: int, i: int) -> bool {
    wall.covers(x, y0 + i)
}

/// Whether some wall covers one of `n` cells of a row starting at `x0`.
pub open spec fn wall_on_row(walls: Seq<WallSegment>, x0: int, y: int, n: int) -> bool {
    exists|j: int, i: int| 0 <= j < walls.len() && 0 <= i < n && #[trigger] covers_right_of(walls[j], x0, i, y)
}

/// Whether some wall covers one of `n` cells of a column starting at `y0`.
pub open spec fn wall_on_column(walls: Seq<WallSegment>, x: int, y0: int, n: int) -> bool {
    exists|j: int, i: int| 0 <= j < walls.len() && 0 <= i < n && #[trigger] covers_above(walls[j], x, y0, i)
}

/// Wall contact turns a workshop's entry away from the wall: a wall along
/// the top keeps the bottom entry, along the right turns it to the left,
/// along the bottom to the top and along the left to the right.
pub open spec fn wall_rotation(walls: Seq<WallSegment>, x: int, y: int, n: int) -> int {
    if wall_on_row(walls, x, y + n, n) {
        0
    } else if wall_on_column(walls, x + n, y, n) {
        1
    } else if wall_on_row(walls, x, y - 1, n) {
        2
    } else if wall_on_column(walls, x - 1, y, n) {
        3
    } else {
        0
    }
}

/// Entry of an `n x n` square whose entry side is rotated `r` times.
pub open spec fn square_entry(map: CellMap, x: int, y: int, n: int, r: int) -> Option<EntryPoint> {
    first_available_spec(map, entry_candidates(x, y, n, r))
}

/// Buildings whose entry turns away from adjacent walls.
pub open spec fn rotates_with_walls(t: BuildingType) -> bool {
    t.is_weapon_workshop() || t == BuildingType::Bakery
}

/// Entry point of a building: none for a goods yard, the field cell
/// `(x + 4, y + 3)` for a wheat farm, otherwise the square rule with wall
/// orientation for workshops and bakeries.
pub open spec fn building_entry(
    map: CellMap,
    walls: Seq<WallSegment>,
    t: BuildingType,
    x: int,
    y: int,
    n: int,
) -> Option<EntryPoint> {
    if t == BuildingType::GoodsYard {
        None
    } else if t == BuildingType::WheatFarm {
        first_available_spec(map, seq![((x + 4) as i32, (y + 3) as i32)])
    } else if rotates_with_walls(t) {
        square_entry(map, x, y, n, wall_rotation(walls, x, y, n))
    } else {
        square_entry(map, x, y, n, 0)
    }
}

/// The coordinates around a square of side `n` at `(x, y)` are `i32` values.
pub open spec fn square_fits(x: int, y: int, n: int) -> bool {
    &&& 1 <= n
    &&& 4 * n <= i32::MAX
    &&& i32::MIN < x
    &&& i32::MIN < y
    &&& x + n <= i32::MAX
    &&& y + n <= i32::MAX
}

/// The first available candidate.
pub fn first_available(map: &CellMap, cells: &Vec<(i32, i32)>) -> (r: Option<EntryPoint>)
    requires
        map.wf(),
    ensures
        r == first_available_spec(*map, cells@),
{
    let mut i: usize = 0;
    while i < cells.len()
        invariant
            map.wf(),
            i <= cells@.len(),
            first_available_spec(*map, cells@) == first_available_from(*map, cells@, i as int),
        decreases cells@.len() - i,
    {
        let (cx, cy) = cells[i];
        if map.is_in_bounds(cx, cy) && !map.is_blocked(cx, cy) {
            return Some(EntryPoint { x: cx, y: cy });
        }
        i = i + 1;
    }
    None
}

fn ring_cells(x: i32, y: i32, n: i32) -> (r: Vec<(i32, i32)>)
    requires
        square_fits(x as int, y as int, n as int),
    ensures
        r@ == ring_spec(x as int, y as int, n as int),
{
    let mut r: Vec<(i32, i32)> = Vec::new();
    let mut i: i32 = 0;
    while i < 4 * n
        invariant
            square_fits(x as int, y as int, n as int),
            0 <= i <= 4 * n,
            r@ =~= Seq::new(i as nat, |j: int| ring_cell(x as int, y as int, n as int, j)),
        decreases 4 * n - i,
    {
        let c = if i < n {
            (x + n - 1 - i, y - 1)
        } else if i < 2 * n {
            (x - 1, y + (i - n))
        } else if i < 3 * n {
            (x + (i - 2 * n), y + n)
        } else {
            (x + n, y + n - 1 - (i - 3 * n))
        };
        r.push(c);
        i = i + 1;
    }
    r
}

fn rotate_vec(v: &Vec<(i32, i32)>, k: usize) -> (r: Vec<(i32, i32)>)
    requires
        k <= v@.len(),
    ensures
        r@ == rotated(v@, k as int),
{
    let mut r: Vec<(i32, i32)> = Vec::new();
    let mut i: usize = k;
    while i < v.len()
        invariant
            k <= i <= v@.len(),
            r@ =~= v@.subrange(k as int, i as int),
        decreases v@.len() - i,
    {
        r.push(v[i]);
        i = i + 1;
    }
    let mut j: usize = 0;
    while j < k
        invariant
            j <= k <= v@.len(),
            r@ =~= v@.subrange(k as int, v@.len() as int) + v@.subrange(0, j as int),
        decreases k - j,
    {
        r.push(v[j]);
        j = j + 1;
    }
    r
}

/// Entry of an `n x n` square whose entry side is rotated `rotation_steps`
/// times clockwise from the bottom.
pub fn resolve_entry_point_for_square(map: &CellMap, x: i32, y: i32, size: i32, rotation_steps: usize) -> (r:
    Option<EntryPoint>)
    requires
        map.wf(),
        square_fits(x as int, y as int, size as int),
    ensures
        r == square_entry(*map, x as int, y as int, size as int, rotation_steps as int),
{
    let turn = rotation_steps % 4;
    let ring = ring_cells(x, y, size);
    assert((turn as int) * (size as int) <= 3 * (size as int)) by (nonlinear_arith)
        requires
            turn < 4,
            size >= 1,
    ;
    let offset = if size == 2 { 0 } else { size / 2 };
    let start = (turn as i32) * size + (size - 1 - offset);
    let side = rotate_vec(&ring, start as usize);
    let corners = vec![(x + size, y - 1), (x - 1, y - 1), (x - 1, y + size), (x + size, y + size)];
    assert(corners@ =~= corners_spec(x as int, y as int, size as int));
    let corner_order = rotate_vec(&corners, turn);
    let mut candidates = side;
    let mut k: usize = 0;
    let ghost side_seq = candidates@;
    while k < corner_order.len()
        invariant
            k <= corner_order@.len(),
            candidates@ =~= side_seq + corner_order@.subrange(0, k as int),
        decreases corner_order@.len() - k,
    {
        candidates.push(corner_order[k]);
        k = k + 1;
    }
    assert(corner_order@.subrange(0, k as int) =~= corner_order@);
    assert(candidates@ =~= entry_candidates(x as int, y as int, size as int, rotation_steps as int));
    first_available(map, &candidates)
}

/// Whether a wall covers the cell.
pub fn is_wall_at(walls: &Vec<WallSegment>, x: i32, y: i32) -> (r: bool)
    ensures
        r == exists|j: int| 0 <= j < walls@.len() && (#[trigger] walls@[j]).covers(x as int, y as int),
{
    let mut j: usize = 0;
    while j < walls.len()
        invariant
            j <= walls@.len(),
            forall|k: int| 0 <= k < j ==> !(#[trigger] walls@[k]).covers(x as int, y as int),
        decreases walls@.len() - j,
    {
        if walls[j].contains_cell(x, y) {
            return true;
        }
        j = j + 1;
    }
    false
}

fn row_has_wall(walls: &Vec<WallSegment>, x0: i32, y: i32, n: i32) -> (r: bool)
    requires
        0 <= n,
        x0 + n <= i32::MAX,
    ensures
        r == wall_on_row(walls@, x0 as int, y as int, n as int),
{
    let mut i: i32 = 0;
    while i < n
        invariant
            0 <= i <= n,
            x0 + n <= i32::MAX,
            forall|j: int, k: int| 0 <= j < walls@.len() && 0 <= k < i ==> !#[trigger] covers_right_of(walls@[j], x0 as int, k, y as int),
        decreases n - i,
    {
        if is_wall_at(walls, x0 + i, y) {
            proof {
                let j = choose|j: int| 0 <= j < walls@.len() && (#[trigger] walls@[j]).covers((x0 + i) as int, y as int);
                assert(covers_right_of(walls@[j], x0 as int, i as int, y as int));
            }
            return true;
        }
        i = i + 1;
    }
    false
}

fn column_has_wall(walls: &Vec<WallSegment>, x: i32, y0: i32, n: i32) -> (r: bool)
    requires
        0 <= n,
        y0 + n <= i32::MAX,
    ensures
        r == wall_on_column(walls@, x as int, y0 as int, n as int),
{
    let mut i: i32 = 0;
    while i < n
        invariant
            0 <= i <= n,
            y0 + n <= i32::MAX,
            forall|j: int, k: int| 0 <= j < walls@.len() && 0 <= k < i ==> !#[trigger] covers_above(walls@[j], x as int, y0 as int, k),
        decreases n - i,
    {
        if is_wall_at(walls, x, y0 + i) {
            proof {
                let j = choose|j: int| 0 <= j < walls@.len() && (#[trigger] walls@[j]).covers(x as int, (y0 + i) as int);
                assert(covers_above(walls@[j], x as int, y0 as int, i as int));
            }
            return true;
        }
        i = i + 1;
    }
    false
}

/// How many clockwise turns wall contact gives a workshop's entry side.
pub fn workshop_wall_rotation_steps(walls: &Vec<WallSegment>, x: i32, y: i32, size: i32) -> (r: usize)
    requires
        square_fits(x as int, y as int, size as int),
    ensures
        r == wall_rotation(walls@, x as int, y as int, size as int),
{
    if row_has_wall(walls, x, y + size, size) {
        return 0;
    }
    if column_has_wall(walls, x + size, y, size) {
        return 1;
    }
    if row_has_wall(walls, x, y - 1, size) {
        return 2;
    }
    if column_has_wall(walls, x - 1, y, size) {
        return 3;
    }
    0
}

/// The entry point a building of type `t` at `(x, y)` gets.
pub fn calculate_building_entry(
    map: &CellMap,
    walls: &Vec<WallSegment>,
    building_type: BuildingType,
    x: i32,
    y: i32,
    size: i32,
) -> (r: Option<EntryPoint>)
    requires
        map.wf(),
        square_fits(x as int, y as int, size as int),
        building_type == BuildingType::WheatFarm ==> size == 9,
    ensures
        r == building_entry(*map, walls@, building_type, x as int, y as int, size as int),
{
    if building_type == BuildingType::GoodsYard {
        return None;
    }
    if building_type == BuildingType::WheatFarm {
        let cells = vec![(x + 4, y + 3)];
        assert(cells@ =~= seq![((x + 4) as i32, (y + 3) as i32)]);
        return first_available(map, &cells);
    }
    let rotation = if building_type.is_workshop() || building_type == BuildingType::Bakery {
        workshop_wall_rotation_steps(walls, x, y, size)
    } else {
        0
    };
    resolve_entry_point_for_square(map, x, y, size, rotation)
}

} // verus!
