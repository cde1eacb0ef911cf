use vstd::prelude::*;

use crate::buildings::PlacementView;
use crate::simulation::Simulator;

verus! {

/// One cell side of a building outline: the lower side of cell `(x, y)`
/// when horizontal, else its left side.
#[derive(Debug, Clone, Copy, PartialEq, Eq, Structural)]
pub struct BuildingBoundary {
    pub x: i32,
    pub y: i32,
    pub horizontal: bool,
}

/// The drawing order of outline sides: by `x`, then `y`, vertical first.
pub open spec fn edge_before(a: BuildingBoundary, b: BuildingBoundary) -> bool {
    ||| a.x < b.x
    ||| a.x == b.x && a.y < b.y
    ||| a.x == b.x && a.y == b.y && !a.horizontal && b.horizontal
}

/// Each side comes strictly after the one before it.
pub open spec fn strictly_sorted(s: Seq<BuildingBoundary>) -> bool {
    forall|i: int, j: int| 0 <= i < j < s.len() ==> edge_before(#[trigger] s[i], #[trigger] s[j])
}

/// Whether `e` is a side of the `w x h` rectangle with lower-left cell
/// `(x, y)`, counting only sides with `i32` coordinates.
pub open spec fn on_rect(e: BuildingBoundary, x: int, y: int, w: int, h: int) -> bool {
    &&& w > 0 && h > 0
    &&& if e.horizontal {
        x <= e.x < x + w && (e.y == y || e.y == y + h)
    } else {
        y <= e.y < y + h && (e.x == x || e.x == x + w)
    }
}

/// The sides of the rectangle among the first `dxn` columns and `dyn`
/// rows.
pub open spec fn on_rect_prefix(e: BuildingBoundary, x: int, y: int, w: int, h: int, dxn: int, dyn_: int) -> bool {
    &&& w > 0 && h > 0
    &&& if e.horizontal {
        x <= e.x < x + dxn && (e.y == y || e.y == y + h)
    } else {
        y <= e.y < y + dyn_ && (e.x == x || e.x == x + w)
    }
}

/// `v` holds what `s` holds and the sides of the rectangle among its first
/// `dxn` columns and `dyn_` rows.
pub open spec fn holds_prefix(
    v: Seq<BuildingBoundary>,
    s: Seq<BuildingBoundary>,
    x: int,
    y: int,
    w: int,
    h: int,
    dxn: int,
    dyn_: int,
) -> bool {
    forall|f: BuildingBoundary| #[trigger] v.contains(f) == (s.contains(f) || on_rect_prefix(f, x, y, w, h, dxn, dyn_))
}

fn min_i32(a: i32, b: i32) -> (r: i32)
    ensures
        r == (if a <= b { a } else { b }),
{
    if a <= b {
        a
    } else {
        b
    }
}

/// The lower-left corner of goods yard group `g`: the least `x` and the
/// least `y` of its stockpiles.
pub open spec fn group_origin(bs: Seq<PlacementView>, g: u32) -> Option<(i32, i32)>
    decreases bs.len(),
{
    if bs.len() == 0 {
        None
    } else {
        let prev = group_origin(bs.drop_last(), g);
        let b = bs.last();
        if b.goods_yard_group_id == Some(g) {
            match prev {
                None => Some((b.x, b.y)),
                Some((ox, oy)) => Some((if ox <= b.x { ox } else { b.x }, if oy <= b.y { oy } else { b.y })),
            }
        } else {
            prev
        }
    }
}

/// Whether `e` outlines a building that belongs to no goods yard, among
/// the first `n`.
pub open spec fn outlines_building(bs: Seq<PlacementView>, e: BuildingBoundary, n: int) -> bool {
    exists|i: int|
        0 <= i < n && (#[trigger] bs[i]).goods_yard_group_id is None && on_rect(
            e,
            bs[i].x as int,
            bs[i].y as int,
            bs[i].footprint.width as int,
            bs[i].footprint.height as int,
        )
}

/// Whether `e` outlines the 5 x 5 area of a goods yard group.
pub open spec fn outlines_group(bs: Seq<PlacementView>, e: BuildingBoundary) -> bool {
    exists|g: u32| #[trigger] group_origin(bs, g) matches Some(o) && on_rect(e, o.0 as int, o.1 as int, 5, 5)
}

/// The outline of a layout: the sides of every building outside goods
/// yards and of every goods yard's whole area.
pub open spec fn on_outline(bs: Seq<PlacementView>, e: BuildingBoundary) -> bool {
    outlines_building(bs, e, bs.len() as int) || outlines_group(bs, e)
}

proof fn lemma_order_total(a: BuildingBoundary, b: BuildingBoundary)
    ensures
        a == b || edge_before(a, b) || edge_before(b, a),
        !(edge_before(a, b) && edge_before(b, a)),
        !edge_before(a, a),
{
}

/// Adds side `e` to a sorted list without repeating it.
fn insert_edge(edges: &mut Vec<BuildingBoundary>, e: BuildingBoundary)
    requires
        strictly_sorted(old(edges)@),
    ensures
        strictly_sorted(final(edges)@),
        forall|f: BuildingBoundary| final(edges)@.contains(f) <==> (old(edges)@.contains(f) || f == e),
{
    let ghost s = edges@;
    let mut p: usize = 0;
    while p < edges.len()
        invariant_except_break
            s == edges@,
            p <= s.len(),
            forall|k: int| 0 <= k < p ==> edge_before(#[trigger] s[k], e),
        ensures
            s == edges@,
            p <= s.len(),
            forall|k: int| 0 <= k < p ==> edge_before(#[trigger] s[k], e),
            p < s.len() ==> !edge_before(s[p as int], e),
        decreases s.len() - p,
    {
        let cur = edges[p];
        let before = cur.x < e.x || (cur.x == e.x && cur.y < e.y) || (cur.x == e.x && cur.y == e.y && !cur.horizontal
            && e.horizontal);
        if !before {
            break;
        }
        p = p + 1;
    }
    if p < edges.len() {
        let cur = edges[p];
        if cur.x == e.x && cur.y == e.y && cur.horizontal == e.horizontal {
            assert(cur == e);
            assert(forall|f: BuildingBoundary| s.contains(f) <==> (s.contains(f) || f == e)) by {
                assert(s[p as int] == e);
            }
            return;
        }
        proof {
            lemma_order_total(s[p as int], e);
        }
    }
    edges.insert(p, e);
    proof {
        let t = edges@;
        assert(t == s.insert(p as int, e));
        assert forall|i: int, j: int| 0 <= i < j < t.len() implies edge_before(#[trigger] t[i], #[trigger] t[j]) by {
            if j < p {
                assert(t[i] == s[i] && t[j] == s[j]);
            } else if j == p {
                assert(t[i] == s[i]);
            } else if i == p {
                assert(t[j] == s[j - 1]);
                if j - 1 > p {
                    assert(edge_before(s[p as int], s[j - 1]));
                    lemma_order_total(s[p as int], s[j - 1]);
                }
            } else if i < p {
                assert(t[i] == s[i] && t[j] == s[j - 1]);
            } else {
                assert(t[i] == s[i - 1] && t[j] == s[j - 1]);
            }
        }
        assert forall|f: BuildingBoundary| t.contains(f) <==> (s.contains(f) || f == e) by {
            if t.contains(f) {
                let k = choose|k: int| 0 <= k < t.len() && t[k] == f;
                if k < p {
                    assert(s[k] == f);
                } else if k > p {
                    assert(s[k - 1] == f);
                }
            }
            if s.contains(f) {
                let k = choose|k: int| 0 <= k < s.len() && s[k] == f;
                if k < p {
                    assert(t[k] == f);
                } else {
                    assert(t[k + 1] == f);
                }
            }
            if f == e {
                assert(t[p as int] == e);
            }
        }
    }
}

/// Adds the sides of the `w x h` rectangle with lower-left cell `(x, y)`;
/// sides whose coordinates leave the `i32` range are left out.
fn append_rect(start: Vec<BuildingBoundary>, x: i32, y: i32, w: usize, h: usize) -> (r: Vec<BuildingBoundary>)
    requires
        strictly_sorted(start@),
        w <= 0x7fff_ffff,
        h <= 0x7fff_ffff,
    ensures
        strictly_sorted(r@),
        forall|f: BuildingBoundary| r@.contains(f) <==> (start@.contains(f) || on_rect(f, x as int, y as int, w as int, h as int)),
{
    if w == 0 || h == 0 {
        return start;
    }
    let ghost s = start@;
    let mut edges = start;
    let wi: i64 = w as i64;
    let hi: i64 = h as i64;
    let mut dx: i64 = 0;
    while dx < wi
        invariant
            strictly_sorted(edges@),
            w > 0 && h > 0,
            wi == w && hi == h,
            0 <= dx <= wi,
            wi <= 0x7fff_ffff,
            hi <= 0x7fff_ffff,
            holds_prefix(edges@, s, x as int, y as int, wi as int, hi as int, dx as int, 0),
        decreases wi - dx,
    {
        let cx: i64 = x as i64 + dx;
        let top: i64 = y as i64 + hi;
        let ghost before = edges@;
        let ghost prev = dx;
        if cx <= i32::MAX as i64 {
            let e1 = BuildingBoundary { x: cx as i32, y, horizontal: true };
            insert_edge(&mut edges, e1);
            if top <= i32::MAX as i64 {
                let e2 = BuildingBoundary { x: cx as i32, y: top as i32, horizontal: true };
                insert_edge(&mut edges, e2);
            }
        }
        dx = dx + 1;
        assert forall|f: BuildingBoundary| #[trigger] edges@.contains(f) == (s.contains(f) || on_rect_prefix(
            f,
            x as int,
            y as int,
            wi as int,
            hi as int,
            dx as int,
            0,
        )) by {
            assert(before.contains(f) == (s.contains(f) || on_rect_prefix(f, x as int, y as int, wi as int, hi as int, prev as int, 0)));
            if f.horizontal && f.x == cx && f.y == y {
                assert(f == BuildingBoundary { x: cx as i32, y, horizontal: true });
            }
            if f.horizontal && f.x == cx && f.y == top {
                assert(f == BuildingBoundary { x: cx as i32, y: top as i32, horizontal: true });
            }
        }
    }
    let mut dy: i64 = 0;
    while dy < hi
        invariant
            strictly_sorted(edges@),
            w > 0 && h > 0,
            wi == w && hi == h,
            0 <= dy <= hi,
            wi <= 0x7fff_ffff,
            hi <= 0x7fff_ffff,
            holds_prefix(edges@, s, x as int, y as int, wi as int, hi as int, wi as int, dy as int),
        decreases hi - dy,
    {
        let cy: i64 = y as i64 + dy;
        let right: i64 = x as i64 + wi;
        let ghost before = edges@;
        let ghost prev = dy;
        if cy <= i32::MAX as i64 {
            let e1 = BuildingBoundary { x, y: cy as i32, horizontal: false };
            insert_edge(&mut edges, e1);
            if right <= i32::MAX as i64 {
                let e2 = BuildingBoundary { x: right as i32, y: cy as i32, horizontal: false };
                insert_edge(&mut edges, e2);
            }
        }
        dy = dy + 1;
        assert forall|f: BuildingBoundary| #[trigger] edges@.contains(f) == (s.contains(f) || on_rect_prefix(
            f,
            x as int,
            y as int,
            wi as int,
            hi as int,
            wi as int,
            dy as int,
        )) by {
            assert(before.contains(f) == (s.contains(f) || on_rect_prefix(f, x as int, y as int, wi as int, hi as int, wi as int, prev as int)));
            if !f.horizontal && f.y == cy && f.x == x {
                assert(f == BuildingBoundary { x, y: cy as i32, horizontal: false });
            }
            if !f.horizontal && f.y == cy && f.x == right {
                assert(f == BuildingBoundary { x: right as i32, y: cy as i32, horizontal: false });
            }
        }
    }
    assert forall|f: BuildingBoundary|
        (on_rect_prefix(f, x as int, y as int, wi as int, hi as int, wi as int, hi as int) <==> on_rect(
            f,
            x as int,
            y as int,
            w as int,
            h as int,
        )) by {}
    edges
}

proof fn lemma_sizes_bounded(s: &Simulator)
    requires
        s.wf(),
    ensures
        forall|t: int|
            0 <= t < s.buildings_view().len() ==> (#[trigger] s.buildings_view()[t]).footprint.width <= 9
                && s.buildings_view()[t].footprint.height <= 9,
{
    assert forall|t: int| 0 <= t < s.buildings_view().len() implies (#[trigger] s.buildings_view()[t]).footprint.width
        <= 9 && s.buildings_view()[t].footprint.height <= 9 by {
        assert(crate::simulation::placement_ok(s.buildings_view()[t]));
    }
}

/// The outline of a layout for drawing: the sides of every building that
/// belongs to no goods yard and of the whole 5 x 5 area of every goods
/// yard, each side once, in drawing order.
pub fn build_building_boundaries(simulator: &Simulator) -> (r: Vec<BuildingBoundary>)
    requires
        simulator.wf(),
    ensures
        strictly_sorted(r@),
        forall|e: BuildingBoundary| r@.contains(e) <==> on_outline(simulator.buildings_view(), e),
{
    let ghost bs = simulator.buildings_view();
    let buildings = simulator.buildings();
    let mut origins: Vec<(u32, i32, i32)> = Vec::new();
    let mut i: usize = 0;
    while i < buildings.len()
        invariant
            crate::buildings::views(buildings@) == bs,
            i <= bs.len(),
            forall|k: int|
                0 <= k < origins@.len() ==> group_origin(bs.subrange(0, i as int), (#[trigger] origins@[k]).0) == Some(
                    (origins@[k].1, origins@[k].2),
                ),
            forall|k: int, m: int| 0 <= k < m < origins@.len() ==> (#[trigger] origins@[k]).0 != (#[trigger] origins@[m]).0,
            forall|g: u32|
                #[trigger] group_origin(bs.subrange(0, i as int), g) is Some ==> exists|k: int|
                    0 <= k < origins@.len() && (#[trigger] origins@[k]).0 == g,
        decreases bs.len() - i,
    {
        let ghost prefix = bs.subrange(0, i as int);
        let ghost longer = bs.subrange(0, i + 1);
        assert(longer.drop_last() =~= prefix);
        assert(buildings@[i as int]@ == bs[i as int]);
        assert(longer.last() == bs[i as int]);
        let b = &buildings[i];
        if let Some(g) = b.goods_yard_group_id {
            let mut k: usize = 0;
            while k < origins.len()
                invariant_except_break
                    k <= origins@.len(),
                    forall|j: int| 0 <= j < k ==> (#[trigger] origins@[j]).0 != g,
                ensures
                    k <= origins@.len(),
                    forall|j: int| 0 <= j < k ==> (#[trigger] origins@[j]).0 != g,
                    k < origins@.len() ==> origins@[k as int].0 == g,
                decreases origins@.len() - k,
            {
                if origins[k].0 == g {
                    break;
                }
                k = k + 1;
            }
            let ghost old_origins = origins@;
            if k < origins.len() {
                let (_, ox, oy) = origins[k];
                let nx = min_i32(ox, b.x);
                let ny = min_i32(oy, b.y);
                origins.set(k, (g, nx, ny));
                proof {
                    assert forall|m: int| 0 <= m < origins@.len() implies group_origin(longer, (#[trigger] origins@[m]).0)
                        == Some((origins@[m].1, origins@[m].2)) by {
                        if m != k {
                            assert(origins@[m] == old_origins[m]);
                            assert(old_origins[m].0 != g);
                            assert(group_origin(longer, origins@[m].0) == group_origin(prefix, origins@[m].0));
                        }
                    }
                    assert forall|m: int, n: int| 0 <= m < n < origins@.len() implies (#[trigger] origins@[m]).0
                        != (#[trigger] origins@[n]).0 by {
                        assert(origins@[m].0 == old_origins[m].0 && origins@[n].0 == old_origins[n].0);
                    }
                    assert forall|h: u32| #[trigger] group_origin(longer, h) is Some implies exists|m: int|
                        0 <= m < origins@.len() && (#[trigger] origins@[m]).0 == h by {
                        if h == g {
                            assert(origins@[k as int].0 == g);
                        } else {
                            assert(group_origin(longer, h) == group_origin(prefix, h));
                            let m = choose|m: int| 0 <= m < old_origins.len() && (#[trigger] old_origins[m]).0 == h;
                            assert(origins@[m].0 == old_origins[m].0);
                        }
                    }
                }
            } else {
                origins.push((g, b.x, b.y));
                proof {
                    assert(group_origin(prefix, g) is None);
                    assert forall|m: int| 0 <= m < origins@.len() implies group_origin(longer, (#[trigger] origins@[m]).0)
                        == Some((origins@[m].1, origins@[m].2)) by {
                        if m < old_origins.len() {
                            assert(origins@[m] == old_origins[m]);
                            assert(old_origins[m].0 != g);
                            assert(group_origin(longer, origins@[m].0) == group_origin(prefix, origins@[m].0));
                        }
                    }
                    assert forall|m: int, n: int| 0 <= m < n < origins@.len() implies (#[trigger] origins@[m]).0
                        != (#[trigger] origins@[n]).0 by {
                        if n < old_origins.len() {
                            assert(origins@[m] == old_origins[m] && origins@[n] == old_origins[n]);
                        } else {
                            assert(origins@[m] == old_origins[m]);
                        }
                    }
                    assert forall|h: u32| #[trigger] group_origin(longer, h) is Some implies exists|m: int|
                        0 <= m < origins@.len() && (#[trigger] origins@[m]).0 == h by {
                        if h == g {
                            assert(origins@[old_origins.len() as int].0 == g);
                        } else {
                            assert(group_origin(longer, h) == group_origin(prefix, h));
                            let m = choose|m: int| 0 <= m < old_origins.len() && (#[trigger] old_origins[m]).0 == h;
                            assert(origins@[m] == old_origins[m]);
                        }
                    }
                }
            }
        } else {
            proof {
                assert forall|h: u32| group_origin(longer, h) == group_origin(prefix, h) by {}
            }
        }
        i = i + 1;
    }
    assert(bs.subrange(0, i as int) =~= bs);
    let mut edges: Vec<BuildingBoundary> = Vec::new();
    proof {
        lemma_sizes_bounded(simulator);
    }
    let mut j: usize = 0;
    while j < buildings.len()
        invariant
            crate::buildings::views(buildings@) == bs,
            j <= bs.len(),
            strictly_sorted(edges@),
            forall|t: int| 0 <= t < bs.len() ==> (#[trigger] bs[t]).footprint.width <= 9 && bs[t].footprint.height <= 9,
            forall|e: BuildingBoundary| edges@.contains(e) <==> outlines_building(bs, e, j as int),
        decreases bs.len() - j,
    {
        assert(buildings@[j as int]@ == bs[j as int]);
        let b = &buildings[j];
        let ghost before = edges@;
        if b.goods_yard_group_id.is_none() {
            edges = append_rect(edges, b.x, b.y, b.width(), b.height());
        }
        proof {
            assert forall|e: BuildingBoundary| edges@.contains(e) <==> outlines_building(bs, e, j + 1) by {
                if outlines_building(bs, e, j + 1) {
                    let t = choose|t: int|
                        0 <= t < j + 1 && (#[trigger] bs[t]).goods_yard_group_id is None && on_rect(
                            e,
                            bs[t].x as int,
                            bs[t].y as int,
                            bs[t].footprint.width as int,
                            bs[t].footprint.height as int,
                        );
                    if t < j {
                        assert(outlines_building(bs, e, j as int));
                    }
                }
                if before.contains(e) {
                    assert(outlines_building(bs, e, j as int));
                    let t = choose|t: int|
                        0 <= t < j && (#[trigger] bs[t]).goods_yard_group_id is None && on_rect(
                            e,
                            bs[t].x as int,
                            bs[t].y as int,
                            bs[t].footprint.width as int,
                            bs[t].footprint.height as int,
                        );
                    assert(outlines_building(bs, e, j + 1));
                }
            }
        }
        j = j + 1;
    }
    let mut k: usize = 0;
    while k < origins.len()
        invariant
            strictly_sorted(edges@),
            forall|m: int| 0 <= m < origins@.len() ==> group_origin(bs, (#[trigger] origins@[m]).0) == Some(
                (origins@[m].1, origins@[m].2),
            ),
            forall|g: u32| #[trigger] group_origin(bs, g) is Some ==> exists|m: int|
                0 <= m < origins@.len() && (#[trigger] origins@[m]).0 == g,
            k <= origins@.len(),
            forall|e: BuildingBoundary|
                edges@.contains(e) <==> (outlines_building(bs, e, bs.len() as int) || exists|m: int|
                    0 <= m < k && on_rect(e, (#[trigger] origins@[m]).1 as int, origins@[m].2 as int, 5, 5)),
        decreases origins@.len() - k,
    {
        let (_, ox, oy) = origins[k];
        let ghost before = edges@;
        edges = append_rect(edges, ox, oy, 5, 5);
        proof {
            assert forall|e: BuildingBoundary|
                edges@.contains(e) <==> (outlines_building(bs, e, bs.len() as int) || exists|m: int|
                    0 <= m < k + 1 && on_rect(e, (#[trigger] origins@[m]).1 as int, origins@[m].2 as int, 5, 5)) by {
                if exists|m: int| 0 <= m < k + 1 && on_rect(e, (#[trigger] origins@[m]).1 as int, origins@[m].2 as int, 5, 5) {
                    let m = choose|m: int|
                        0 <= m < k + 1 && on_rect(e, (#[trigger] origins@[m]).1 as int, origins@[m].2 as int, 5, 5);
                    if m < k {
                        assert(before.contains(e));
                    }
                }
                if before.contains(e) && !outlines_building(bs, e, bs.len() as int) {
                    let m = choose|m: int|
                        0 <= m < k && on_rect(e, (#[trigger] origins@[m]).1 as int, origins@[m].2 as int, 5, 5);
                    assert(0 <= m < k + 1);
                }
            }
        }
        k = k + 1;
    }
    proof {
        assert forall|e: BuildingBoundary| edges@.contains(e) <==> on_outline(bs, e) by {
            if outlines_group(bs, e) {
                let g = choose|g: u32| #[trigger] group_origin(bs, g) matches Some(o) && on_rect(e, o.0 as int, o.1 as int, 5, 5);
                let m = choose|m: int| 0 <= m < origins@.len() && (#[trigger] origins@[m]).0 == g;
                assert(on_rect(e, origins@[m].1 as int, origins@[m].2 as int, 5, 5));
            }
            if exists|m: int| 0 <= m < k && on_rect(e, (#[trigger] origins@[m]).1 as int, origins@[m].2 as int, 5, 5) {
                let m = choose|m: int|
                    0 <= m < k && on_rect(e, (#[trigger] origins@[m]).1 as int, origins@[m].2 as int, 5, 5);
                let g = origins@[m].0;
                assert(group_origin(bs, g) == Some((origins@[m].1, origins@[m].2)));
                assert(outlines_group(bs, e));
            }
        }
    }
    edges
}

} // verus!
