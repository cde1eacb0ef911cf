use vstd::prelude::*;

use crate::buildings::{BuildingPlacement, EntryPoint, PlacementView, views};
use crate::map::CellMap;

use super::distance::{BuildingDistance, DistanceKey, DistanceTable};

verus! {

/// Workers may stand on a cell that is on the map and does not block.
pub open spec fn passable(map: CellMap, c: (int, int)) -> bool {
    map.in_bounds(c.0, c.1) && !map.blocked_at(c.0, c.1)
}

/// One move in any of the eight directions onto a passable cell.
pub open spec fn king_step(map: CellMap, a: (int, int), b: (int, int)) -> bool {
    &&& -1 <= b.0 - a.0 <= 1
    &&& -1 <= b.1 - a.1 <= 1
    &&& a != b
    &&& passable(map, b)
}

pub open spec fn walk_step(map: CellMap, w: Seq<(int, int)>, k: int) -> bool {
    king_step(map, w[k], w[k + 1])
}

/// A sequence of passable cells, each one move from the previous one.
pub open spec fn is_walk(map: CellMap, w: Seq<(int, int)>) -> bool {
    &&& w.len() >= 1
    &&& passable(map, w[0])
    &&& forall|k: int| 0 <= k < w.len() - 1 ==> #[trigger] walk_step(map, w, k)
}

/// A walk of `len` moves from `s` to `f`.
pub open spec fn walk_between(map: CellMap, w: Seq<(int, int)>, s: (int, int), f: (int, int), len: nat) -> bool {
    &&& is_walk(map, w)
    &&& w.len() == len + 1
    &&& w[0] == s
    &&& w[w.len() - 1] == f
}

pub open spec fn has_walk(map: CellMap, s: (int, int), f: (int, int), len: nat) -> bool {
    exists|w: Seq<(int, int)>| #[trigger] walk_between(map, w, s, f, len)
}

/// `d` is the length of a shortest walk from `s` to `f`.
pub open spec fn is_shortest(map: CellMap, s: (int, int), f: (int, int), d: nat) -> bool {
    &&& has_walk(map, s, f, d)
    &&& forall|d2: nat| d2 < d ==> !#[trigger] has_walk(map, s, f, d2)
}

pub open spec fn entry_cell(e: EntryPoint) -> (int, int) {
    (e.x as int, e.y as int)
}

/// The route length between two entry cells: zero for the same in-bounds
/// cell, otherwise the shortest walk, or none when no walk exists.
pub open spec fn route_spec_holds(map: CellMap, start: EntryPoint, finish: EntryPoint, r: Option<u32>) -> bool {
    if map.in_bounds(start.x as int, start.y as int) && start == finish {
        r == Some(0u32)
    } else {
        &&& (r matches Some(d) ==> is_shortest(map, entry_cell(start), entry_cell(finish), d as nat))
        &&& (r is None ==> forall|d: nat| !#[trigger] has_walk(map, entry_cell(start), entry_cell(finish), d))
    }
}

/// The eight move directions in scanning order.
pub open spec fn direction(k: int) -> (int, int) {
    if k == 0 {
        (-1, -1)
    } else if k == 1 {
        (0, -1)
    } else if k == 2 {
        (1, -1)
    } else if k == 3 {
        (-1, 0)
    } else if k == 4 {
        (1, 0)
    } else if k == 5 {
        (-1, 1)
    } else if k == 6 {
        (0, 1)
    } else {
        (1, 1)
    }
}

/// The neighbour of `c` in direction `j`.
pub open spec fn neighbor(c: (int, int), j: int) -> (int, int) {
    (c.0 + direction(j).0, c.1 + direction(j).1)
}

pub open spec fn cell_of(c: (i32, i32)) -> (int, int) {
    (c.0 as int, c.1 as int)
}

/// Recorded distance of an in-bounds cell.
pub open spec fn dist_at(map: CellMap, dist: Seq<u32>, c: (int, int)) -> u32 {
    dist[map.local_index(c.0, c.1)]
}

pub open spec fn visited(map: CellMap, dist: Seq<u32>, c: (int, int)) -> bool {
    map.in_bounds(c.0, c.1) && dist_at(map, dist, c) != u32::MAX
}

/// The breadth-first search state.
pub open spec fn search_inv(
    map: CellMap,
    start: (int, int),
    finish: (int, int),
    dist: Seq<u32>,
    queue: Seq<(i32, i32)>,
    head: int,
    paths: Map<(int, int), Seq<(int, int)>>,
) -> bool {
    &&& map.wf()
    &&& dist.len() == map.cell_count()
    &&& 1 <= queue.len()
    &&& 0 <= head <= queue.len()
    &&& cell_of(queue[0]) == start
    &&& queue.no_duplicates()
    &&& forall|i: int| 0 <= i < queue.len() ==> passable(map, cell_of(#[trigger] queue[i]))
    &&& forall|i: int| 0 <= i < queue.len() ==> visited(map, dist, cell_of(#[trigger] queue[i]))
    &&& forall|x: int, y: int|
        #![trigger dist_at(map, dist, (x, y))]
        map.in_bounds(x, y) && dist_at(map, dist, (x, y)) != u32::MAX ==> exists|i: int|
            0 <= i < queue.len() && cell_of(#[trigger] queue[i]) == (x, y)
    &&& dist_at(map, dist, start) == 0
    &&& forall|i: int, j: int|
        0 <= i <= j < queue.len() ==> dist_at(map, dist, cell_of(#[trigger] queue[i])) <= dist_at(
            map,
            dist,
            cell_of(#[trigger] queue[j]),
        )
    &&& forall|i: int| 0 <= i < queue.len() ==> dist_at(map, dist, cell_of(#[trigger] queue[i])) <= i
    &&& (head < queue.len() ==> dist_at(map, dist, cell_of(queue[queue.len() - 1])) <= dist_at(
        map,
        dist,
        cell_of(queue[head]),
    ) + 1)
    &&& forall|i: int, b: (int, int)|
        0 <= i < head && #[trigger] king_step(map, cell_of(queue[i]), b) ==> visited(map, dist, b)
            && dist_at(map, dist, b) <= dist_at(map, dist, cell_of(queue[i])) + 1
    &&& forall|i: int|
        0 <= i < queue.len() ==> #[trigger] paths.contains_key(cell_of(queue[i])) && walk_between(
            map,
            paths[cell_of(queue[i])],
            start,
            cell_of(queue[i]),
            dist_at(map, dist, cell_of(queue[i])) as nat,
        )
    &&& !visited(map, dist, finish)
}

/// Every walk from the start of at most `bound` moves ends at a visited
/// cell no farther than the walk, provided the queue entries closer than
/// `bound` have all been expanded.
proof fn lemma_walk_reaches_visited(
    map: CellMap,
    start: (int, int),
    finish: (int, int),
    dist: Seq<u32>,
    queue: Seq<(i32, i32)>,
    head: int,
    paths: Map<(int, int), Seq<(int, int)>>,
    bound: int,
    w: Seq<(int, int)>,
)
    requires
        search_inv(map, start, finish, dist, queue, head, paths),
        forall|i: int| 0 <= i < queue.len() && dist_at(map, dist, cell_of(#[trigger] queue[i])) < bound ==> i < head,
        is_walk(map, w),
        w[0] == start,
        w.len() - 1 <= bound,
    ensures
        visited(map, dist, w[w.len() - 1]),
        dist_at(map, dist, w[w.len() - 1]) <= w.len() - 1,
    decreases w.len(),
{
    if w.len() > 1 {
        let p = w.drop_last();
        assert forall|k: int| 0 <= k < p.len() - 1 implies #[trigger] walk_step(map, p, k) by {
            assert(walk_step(map, w, k));
        }
        lemma_walk_reaches_visited(map, start, finish, dist, queue, head, paths, bound, p);
        let last = p[p.len() - 1];
        let i = choose|i: int| 0 <= i < queue.len() && cell_of(#[trigger] queue[i]) == last;
        assert(i < head);
        assert(walk_step(map, w, w.len() - 2));
        assert(king_step(map, cell_of(queue[i]), w[w.len() - 1]));
    }
}

/// Shortest eight-direction walk length between two entry cells through
/// cells that do not block, found by breadth-first search.
pub fn shortest_path_len(map: &CellMap, start: EntryPoint, finish: EntryPoint) -> (r: Option<u32>)
    requires
        map.wf(),
    ensures
        route_spec_holds(*map, start, finish, r),
        r matches Some(d) ==> d <= map.cell_count(),
{
    let ghost s = entry_cell(start);
    let ghost f = entry_cell(finish);
    if !map.is_in_bounds(start.x, start.y) || !map.is_in_bounds(finish.x, finish.y) {
        proof {
            assert forall|d: nat| !#[trigger] has_walk(*map, s, f, d) by {
                if has_walk(*map, s, f, d) {
                    let w = choose|w: Seq<(int, int)>| #[trigger] walk_between(*map, w, s, f, d);
                    if d > 0 {
                        assert(walk_step(*map, w, w.len() - 2));
                    }
                }
            }
        }
        return None;
    }
    if start == finish {
        return Some(0);
    }
    if map.is_blocked(start.x, start.y) || map.is_blocked(finish.x, finish.y) {
        proof {
            assert forall|d: nat| !#[trigger] has_walk(*map, s, f, d) by {
                if has_walk(*map, s, f, d) {
                    let w = choose|w: Seq<(int, int)>| #[trigger] walk_between(*map, w, s, f, d);
                    if d > 0 {
                        assert(walk_step(*map, w, w.len() - 2));
                    }
                }
            }
        }
        return None;
    }
    proof {
        map.lemma_wf_facts();
    }
    let area = map.width() * map.height();
    let mut dist: Vec<u32> = vec![u32::MAX; area];
    let start_idx = map.index(start.x, start.y).unwrap();
    dist.set(start_idx, 0);
    let mut queue: Vec<(i32, i32)> = Vec::new();
    queue.push((start.x, start.y));
    let mut head: usize = 0;
    let ghost mut paths: Map<(int, int), Seq<(int, int)>> = Map::empty().insert(s, seq![s]);
    proof {
        assert forall|x: int, y: int|
            #![trigger dist_at(*map, dist@, (x, y))]
            map.in_bounds(x, y) && dist_at(*map, dist@, (x, y)) != u32::MAX implies exists|i: int|
                0 <= i < queue@.len() && cell_of(#[trigger] queue@[i]) == (x, y) by {
            map.lemma_index(x, y);
            if (x, y) != s {
                map.lemma_index(s.0, s.1);
                if map.local_index(x, y) == start_idx {
                    map.lemma_index_injective(x, y, s.0, s.1);
                }
            }
            assert(cell_of(queue@[0]) == (x, y));
        }
        map.lemma_index(f.0, f.1);
        if map.local_index(f.0, f.1) == start_idx {
            map.lemma_index_injective(f.0, f.1, s.0, s.1);
        }
        assert(walk_between(*map, seq![s], s, s, 0));
    }
    while head < queue.len()
        invariant
            search_inv(*map, s, f, dist@, queue@, head as int, paths),
            area == map.cell_count(),
            s != f,
            s == entry_cell(start),
            f == entry_cell(finish),
        decreases area - head,
    {
        proof {
            map.lemma_distinct_cells_bounded(queue@);
        }
        let (x, y) = queue[head];
        let ghost cur = cell_of(queue@[head as int]);
        let cur_idx = map.index(x, y).unwrap();
        let current_dist = dist[cur_idx];
        let dirs: [(i32, i32); 8] = [(-1, -1), (0, -1), (1, -1), (-1, 0), (1, 0), (-1, 1), (0, 1), (1, 1)];
        let mut k: usize = 0;
        while k < 8
            invariant
                search_inv(*map, s, f, dist@, queue@, head as int, paths),
                area == map.cell_count(),
                s != f,
                s == entry_cell(start),
                f == entry_cell(finish),
                head < queue@.len(),
                cur == cell_of(queue@[head as int]),
                cur == (x as int, y as int),
                current_dist == dist_at(*map, dist@, cur),
                k <= 8,
                forall|j: int| 0 <= j < 8 ==> dirs@[j] == (direction(j).0 as i32, direction(j).1 as i32),
                forall|j: int|
                    0 <= j < k && king_step(*map, cur, #[trigger] neighbor(cur, j)) ==> visited(*map, dist@, neighbor(cur, j))
                        && dist_at(*map, dist@, neighbor(cur, j)) <= current_dist + 1,
            decreases 8 - k,
        {
            let (dx, dy) = dirs[k];
            let nx64: i64 = x as i64 + dx as i64;
            let ny64: i64 = y as i64 + dy as i64;
            let ghost b = (nx64 as int, ny64 as int);
            assert(b == neighbor(cur, k as int));
            if nx64 < i32::MIN as i64 || nx64 > i32::MAX as i64 || ny64 < i32::MIN as i64 || ny64 > i32::MAX as i64 {
                assert(!king_step(*map, cur, b)) by {
                    map.lemma_wf_facts();
                }
                k = k + 1;
                continue;
            }
            let nx = nx64 as i32;
            let ny = ny64 as i32;
            assert(nx as int == nx64 as int && ny as int == ny64 as int);
            if !map.is_in_bounds(nx, ny) || map.is_blocked(nx, ny) {
                assert(!king_step(*map, cur, b));
                k = k + 1;
                continue;
            }
            let next_idx = map.index(nx, ny).unwrap();
            if dist[next_idx] != u32::MAX {
                proof {
                    assert(visited(*map, dist@, b));
                    assert(dist_at(*map, dist@, b) == dist[next_idx as int]);
                    let i = choose|i: int| 0 <= i < queue@.len() && cell_of(#[trigger] queue@[i]) == b;
                    let last = queue@.len() - 1;
                    assert(dist_at(*map, dist@, cell_of(queue@[i])) <= dist_at(*map, dist@, cell_of(queue@[last])));
                }
                k = k + 1;
                continue;
            }
            assert(king_step(*map, cur, b));
            proof {
                map.lemma_index(b.0, b.1);
                assert(!visited(*map, dist@, b));
                assert(b == cell_of((nx, ny)));
                assert(!queue@.contains((nx, ny))) by {
                    if queue@.contains((nx, ny)) {
                        let i = choose|i: int| 0 <= i < queue@.len() && queue@[i] == (nx, ny);
                        assert(visited(*map, dist@, cell_of(queue@[i])));
                    }
                }
                let ext = queue@.push((nx, ny));
                assert(ext.no_duplicates()) by {
                    assert forall|a: int, c: int| 0 <= a < ext.len() && 0 <= c < ext.len() && a != c implies ext[a] != ext[c] by {
                        if a < queue@.len() && c < queue@.len() {
                            assert(queue@[a] != queue@[c]);
                        } else if a == queue@.len() {
                            assert(!queue@.contains((nx, ny)));
                            assert(ext[c] == queue@[c]);
                        } else {
                            assert(!queue@.contains((nx, ny)));
                            assert(ext[a] == queue@[a]);
                        }
                    }
                }
                assert forall|i: int| 0 <= i < ext.len() implies map.in_bounds((#[trigger] ext[i]).0 as int, ext[i].1 as int) by {
                    if i < queue@.len() {
                        assert(passable(*map, cell_of(queue@[i])));
                    }
                }
                map.lemma_distinct_cells_bounded(ext);
                map.lemma_wf_facts();
                assert(dist_at(*map, dist@, cur) <= head);
                assert(current_dist + 1 < u32::MAX);
            }
            let next_dist = current_dist + 1;
            if nx == finish.x && ny == finish.y {
                proof {
                    assert(b == f);
                    let w = paths[cur].push(b);
                    assert(paths.contains_key(cell_of(queue@[head as int])));
                    assert(walk_between(*map, paths[cur], s, cur, current_dist as nat));
                    assert forall|kk: int| 0 <= kk < w.len() - 1 implies #[trigger] walk_step(*map, w, kk) by {
                        if kk < w.len() - 2 {
                            assert(walk_step(*map, paths[cur], kk));
                        }
                    }
                    assert(walk_between(*map, w, s, f, next_dist as nat));
                    assert(next_dist <= queue@.len());
                    assert forall|d2: nat| d2 < next_dist implies !#[trigger] has_walk(*map, s, f, d2) by {
                        if has_walk(*map, s, f, d2) {
                            let w2 = choose|w2: Seq<(int, int)>| #[trigger] walk_between(*map, w2, s, f, d2);
                            assert forall|i: int|
                                0 <= i < queue@.len() && dist_at(*map, dist@, cell_of(#[trigger] queue@[i])) < current_dist implies i < head by {
                                if i >= head {
                                    assert(dist_at(*map, dist@, cell_of(queue@[head as int])) <= dist_at(
                                        *map,
                                        dist@,
                                        cell_of(queue@[i]),
                                    ));
                                }
                            }
                            lemma_walk_reaches_visited(*map, s, f, dist@, queue@, head as int, paths, current_dist as int, w2);
                        }
                    }
                }
                return Some(next_dist);
            }
            let ghost old_dist = dist@;
            let ghost old_queue = queue@;
            dist.set(next_idx, next_dist);
            queue.push((nx, ny));
            proof {
                let w = paths[cur].push(b);
                assert(paths.contains_key(cell_of(queue@[head as int])));
                assert(walk_between(*map, paths[cur], s, cur, current_dist as nat));
                assert forall|kk: int| 0 <= kk < w.len() - 1 implies #[trigger] walk_step(*map, w, kk) by {
                    if kk < w.len() - 2 {
                        assert(walk_step(*map, paths[cur], kk));
                    }
                }
                let old_paths = paths;
                paths = paths.insert(b, w);
                assert(b != f);
                lemma_search_step(*map, s, f, old_dist, old_queue, head as int, old_paths, dist@, queue@, paths, next_idx as int, b, cur, current_dist);
                assert forall|j: int|
                    0 <= j < k + 1 && king_step(*map, cur, #[trigger] neighbor(cur, j)) implies visited(*map, dist@, neighbor(cur, j))
                        && dist_at(*map, dist@, neighbor(cur, j)) <= current_dist + 1 by {
                    if j < k {
                        assert(visited(*map, old_dist, neighbor(cur, j)));
                    }
                }
            }
            k = k + 1;
        }
        proof {
            assert forall|i: int, b: (int, int)|
                0 <= i < head + 1 && #[trigger] king_step(*map, cell_of(queue@[i]), b) implies visited(*map, dist@, b)
                    && dist_at(*map, dist@, b) <= dist_at(*map, dist@, cell_of(queue@[i])) + 1 by {
                if i == head {
                    let dxx = b.0 - cur.0;
                    let dyy = b.1 - cur.1;
                    let j: int = if dyy == -1 {
                        dxx + 1
                    } else if dyy == 0 {
                        if dxx == -1 { 3 } else { 4 }
                    } else {
                        dxx + 6
                    };
                    assert(b == neighbor(cur, j));
                }
            }
            if head + 1 < queue@.len() {
                assert(dist_at(*map, dist@, cell_of(queue@[head as int])) <= dist_at(*map, dist@, cell_of(queue@[head + 1])));
            }
        }
        head = head + 1;
    }
    proof {
        assert forall|d: nat| !#[trigger] has_walk(*map, s, f, d) by {
            if has_walk(*map, s, f, d) {
                let w = choose|w: Seq<(int, int)>| #[trigger] walk_between(*map, w, s, f, d);
                lemma_walk_reaches_visited(*map, s, f, dist@, queue@, head as int, paths, w.len() as int, w);
            }
        }
    }
    None
}

/// Recording a newly reached neighbour keeps the search state consistent.
proof fn lemma_search_step(
    map: CellMap,
    s: (int, int),
    f: (int, int),
    old_dist: Seq<u32>,
    old_queue: Seq<(i32, i32)>,
    head: int,
    old_paths: Map<(int, int), Seq<(int, int)>>,
    dist: Seq<u32>,
    queue: Seq<(i32, i32)>,
    paths: Map<(int, int), Seq<(int, int)>>,
    next_idx: int,
    b: (int, int),
    cur: (int, int),
    current_dist: u32,
)
    requires
        search_inv(map, s, f, old_dist, old_queue, head, old_paths),
        head < old_queue.len(),
        cur == cell_of(old_queue[head]),
        current_dist == dist_at(map, old_dist, cur),
        king_step(map, cur, b),
        !visited(map, old_dist, b),
        b != f,
        next_idx == map.local_index(b.0, b.1),
        current_dist + 1 < u32::MAX,
        current_dist + 1 <= old_queue.len(),
        dist == old_dist.update(next_idx, (current_dist + 1) as u32),
        queue == old_queue.push((b.0 as i32, b.1 as i32)),
        queue.no_duplicates(),
        paths == old_paths.insert(b, paths[b]),
        walk_between(map, paths[b], s, b, (current_dist + 1) as nat),
    ensures
        search_inv(map, s, f, dist, queue, head, paths),
        visited(map, dist, b),
        dist_at(map, dist, b) == current_dist + 1,
        forall|c: (int, int)|
            #[trigger] visited(map, old_dist, c) ==> visited(map, dist, c) && dist_at(map, dist, c) == dist_at(
                map,
                old_dist,
                c,
            ),
{
    let nd = (current_dist + 1) as u32;
    let len = old_queue.len() as int;
    let bc = (b.0 as i32, b.1 as i32);
    map.lemma_index(b.0, b.1);
    assert(cell_of(bc) == b);
    assert forall|c: (int, int)| map.in_bounds(c.0, c.1) && c != b implies #[trigger] dist_at(map, dist, c) == dist_at(
        map,
        old_dist,
        c,
    ) by {
        map.lemma_index(c.0, c.1);
        if map.local_index(c.0, c.1) == next_idx {
            map.lemma_index_injective(c.0, c.1, b.0, b.1);
        }
    }
    assert(dist_at(map, dist, b) == nd);
    assert forall|i: int| 0 <= i < len implies cell_of(#[trigger] old_queue[i]) != b by {
        assert(visited(map, old_dist, cell_of(old_queue[i])));
    }
    assert forall|i: int| 0 <= i < queue.len() implies passable(map, cell_of(#[trigger] queue[i])) by {
        if i < len {
            assert(queue[i] == old_queue[i]);
        }
    }
    assert forall|i: int| 0 <= i < queue.len() implies visited(map, dist, cell_of(#[trigger] queue[i])) by {
        if i < len {
            assert(queue[i] == old_queue[i]);
            assert(visited(map, old_dist, cell_of(old_queue[i])));
        }
    }
    assert forall|x: int, y: int|
        #![trigger dist_at(map, dist, (x, y))]
        map.in_bounds(x, y) && dist_at(map, dist, (x, y)) != u32::MAX implies exists|i: int|
            0 <= i < queue.len() && cell_of(#[trigger] queue[i]) == (x, y) by {
        if (x, y) == b {
            assert(cell_of(queue[len]) == (x, y));
        } else {
            assert(dist_at(map, old_dist, (x, y)) != u32::MAX);
            let i = choose|i: int| 0 <= i < old_queue.len() && cell_of(#[trigger] old_queue[i]) == (x, y);
            assert(cell_of(queue[i]) == (x, y));
        }
    }
    assert(visited(map, old_dist, s));
    assert(dist_at(map, dist, s) == 0);
    assert forall|i: int, j: int|
        0 <= i <= j < queue.len() implies dist_at(map, dist, cell_of(#[trigger] queue[i])) <= dist_at(
        map,
        dist,
        cell_of(#[trigger] queue[j]),
    ) by {
        assert(queue[i] == if i < len { old_queue[i] } else { bc });
        assert(queue[j] == if j < len { old_queue[j] } else { bc });
        if i < len {
            assert(dist_at(map, old_dist, cell_of(old_queue[i])) <= dist_at(map, old_dist, cell_of(old_queue[len - 1])));
            assert(dist_at(map, old_dist, cell_of(old_queue[head])) <= dist_at(map, old_dist, cell_of(old_queue[len - 1])));
        }
    }
    assert forall|i: int| 0 <= i < queue.len() implies dist_at(map, dist, cell_of(#[trigger] queue[i])) <= i by {
        if i < len {
            assert(queue[i] == old_queue[i]);
        }
    }
    assert forall|i: int, c: (int, int)|
        0 <= i < head && #[trigger] king_step(map, cell_of(queue[i]), c) implies visited(map, dist, c) && dist_at(
        map,
        dist,
        c,
    ) <= dist_at(map, dist, cell_of(queue[i])) + 1 by {
        assert(queue[i] == old_queue[i]);
        assert(king_step(map, cell_of(old_queue[i]), c));
        assert(visited(map, old_dist, c));
    }
    assert forall|i: int|
        0 <= i < queue.len() implies #[trigger] paths.contains_key(cell_of(queue[i])) && walk_between(
        map,
        paths[cell_of(queue[i])],
        s,
        cell_of(queue[i]),
        dist_at(map, dist, cell_of(queue[i])) as nat,
    ) by {
        if i < len {
            assert(queue[i] == old_queue[i]);
            assert(old_paths.contains_key(cell_of(old_queue[i])));
        }
    }
    if map.in_bounds(f.0, f.1) {
        assert(dist_at(map, dist, f) == dist_at(map, old_dist, f));
    }
    assert forall|c: (int, int)| #[trigger] visited(map, old_dist, c) implies visited(map, dist, c) && dist_at(
        map,
        dist,
        c,
    ) == dist_at(map, old_dist, c) by {
        assert(c != b);
    }
}

/// The key of the route from building `a` to building `b`.
pub open spec fn pair_key(a: u32, b: u32) -> DistanceKey {
    DistanceKey { start_building_id: a, finish_building_id: b }
}

/// Some building among the first `hi` has identifier `id`.
pub open spec fn has_id(bs: Seq<PlacementView>, id: u32, hi: int) -> bool {
    exists|t: int| 0 <= t < hi && t < bs.len() && (#[trigger] bs[t]).id == id
}

/// No two buildings share an identifier.
pub open spec fn ids_distinct(bs: Seq<PlacementView>) -> bool {
    forall|a: int, b: int| 0 <= a < bs.len() && 0 <= b < bs.len() && a != b ==> (#[trigger] bs[a]).id != (#[trigger] bs[b]).id
}

/// The record of the route from `a` to `b`: both entries and, when both
/// exist, the shortest walk between them.
pub open spec fn distance_record_ok(map: CellMap, a: PlacementView, b: PlacementView, rec: BuildingDistance) -> bool {
    &&& rec.key == pair_key(a.id, b.id)
    &&& rec.start_entry == a.entry_point
    &&& rec.finish_entry == b.entry_point
    &&& match (a.entry_point, b.entry_point) {
        (Some(s), Some(f)) => route_spec_holds(map, s, f, rec.distance_cells),
        _ => rec.distance_cells is None,
    }
}

/// A record for `k` comes from some pair of buildings with those identifiers.
pub open spec fn recorded_from_pair(map: CellMap, bs: Seq<PlacementView>, k: DistanceKey, rec: BuildingDistance) -> bool {
    exists|a: int, b: int|
        0 <= a < bs.len() && 0 <= b < bs.len() && (#[trigger] bs[a]).id == k.start_building_id && (#[trigger] bs[b]).id
            == k.finish_building_id && distance_record_ok(map, bs[a], bs[b], rec)
}

/// Recorded walk lengths never exceed the cell count.
pub open spec fn distances_bounded(t: Map<DistanceKey, BuildingDistance>, limit: nat) -> bool {
    forall|k: DistanceKey| #[trigger] t.contains_key(k) ==> (t[k].distance_cells matches Some(d) ==> d <= limit)
}

/// `t` holds a route for every ordered pair of buildings with different
/// identifiers and nothing else, each measured between those buildings'
/// entries on `map`.
pub open spec fn distances_fresh(map: CellMap, bs: Seq<PlacementView>, t: Map<DistanceKey, BuildingDistance>) -> bool {
    &&& forall|k: DistanceKey|
        #[trigger] t.contains_key(k) <==> (k.start_building_id != k.finish_building_id && has_id(
            bs,
            k.start_building_id,
            bs.len() as int,
        ) && has_id(bs, k.finish_building_id, bs.len() as int))
    &&& forall|k: DistanceKey| #[trigger] t.contains_key(k) ==> recorded_from_pair(map, bs, k, t[k])
}

/// Keys recorded after visiting starts before `i`, and finishes before `j`
/// for start `i`.
spec fn pairs_done(bs: Seq<PlacementView>, k: DistanceKey, i: int, j: int) -> bool {
    &&& k.start_building_id != k.finish_building_id
    &&& ((has_id(bs, k.start_building_id, i) && has_id(bs, k.finish_building_id, bs.len() as int)) || (i < bs.len()
        && bs[i].id == k.start_building_id && has_id(bs, k.finish_building_id, j)))
}

/// The route record between the entries of `a` and `b`.
fn distance_between_buildings(map: &CellMap, a: &BuildingPlacement, b: &BuildingPlacement) -> (r: BuildingDistance)
    requires
        map.wf(),
    ensures
        distance_record_ok(*map, a@, b@, r),
        r.distance_cells matches Some(d) ==> d <= map.cell_count(),
{
    let key = DistanceKey::new(a.id, b.id);
    let distance_cells = match (a.entry_point, b.entry_point) {
        (Some(start_entry), Some(finish_entry)) => shortest_path_len(map, start_entry, finish_entry),
        _ => None,
    };
    BuildingDistance { key, start_entry: a.entry_point, finish_entry: b.entry_point, distance_cells }
}

/// Routes between the entries of every ordered pair of buildings with
/// different identifiers.
pub fn recompute_building_distances(buildings: &Vec<BuildingPlacement>, map: &CellMap) -> (r: DistanceTable)
    requires
        map.wf(),
    ensures
        distances_fresh(*map, views(buildings@), r@),
        r.keys_distinct(),
        distances_bounded(r@, map.cell_count()),
        ids_distinct(views(buildings@)) ==> forall|a: int, b: int|
            0 <= a < views(buildings@).len() && 0 <= b < views(buildings@).len() && a != b ==> #[trigger] r@.contains_key(
                pair_key(views(buildings@)[a].id, views(buildings@)[b].id),
            ) && distance_record_ok(*map, views(buildings@)[a], views(buildings@)[b], r@[pair_key(views(buildings@)[a].id, views(buildings@)[b].id)]),
{
    let ghost bs = views(buildings@);
    let n = buildings.len();
    let mut distances = DistanceTable::new();
    let mut i: usize = 0;
    while i < n
        invariant
            map.wf(),
            bs == views(buildings@),
            n == bs.len(),
            i <= n,
            distances.keys_distinct(),
            distances_bounded(distances@, map.cell_count()),
            forall|k: DistanceKey| #[trigger] distances@.contains_key(k) <==> pairs_done(bs, k, i as int, 0),
            forall|k: DistanceKey| #[trigger] distances@.contains_key(k) ==> recorded_from_pair(*map, bs, k, distances@[k]),
        decreases n - i,
    {
        let mut j: usize = 0;
        while j < n
            invariant
                map.wf(),
                bs == views(buildings@),
                n == bs.len(),
                i < n,
                j <= n,
                distances.keys_distinct(),
                distances_bounded(distances@, map.cell_count()),
                forall|k: DistanceKey| #[trigger] distances@.contains_key(k) <==> pairs_done(bs, k, i as int, j as int),
                forall|k: DistanceKey| #[trigger] distances@.contains_key(k) ==> recorded_from_pair(*map, bs, k, distances@[k]),
            decreases n - j,
        {
            let start = &buildings[i];
            let finish = &buildings[j];
            if start.id != finish.id {
                let record = distance_between_buildings(map, start, finish);
                let ghost before = distances@;
                distances.insert(record);
                proof {
                    assert forall|k: DistanceKey| #[trigger] distances@.contains_key(k) <==> pairs_done(bs, k, i as int, j + 1) by {
                        if k == record.key {
                            assert(bs[j as int].id == k.finish_building_id);
                        }
                        if pairs_done(bs, k, i as int, j + 1) && !pairs_done(bs, k, i as int, j as int) {
                            let t = choose|t: int| 0 <= t < j + 1 && t < bs.len() && (#[trigger] bs[t]).id == k.finish_building_id;
                            if t < j {
                                assert(has_id(bs, k.finish_building_id, j as int));
                            }
                        }
                        if pairs_done(bs, k, i as int, j as int) {
                            if i < bs.len() && bs[i as int].id == k.start_building_id && has_id(bs, k.finish_building_id, j as int) {
                                let t = choose|t: int| 0 <= t < j && t < bs.len() && (#[trigger] bs[t]).id == k.finish_building_id;
                                assert(has_id(bs, k.finish_building_id, j + 1));
                            }
                        }
                    }
                    assert forall|k: DistanceKey| #[trigger] distances@.contains_key(k) implies recorded_from_pair(*map, bs, k, distances@[k]) by {
                        if k == record.key {
                            assert(distance_record_ok(*map, bs[i as int], bs[j as int], record));
                        } else {
                            assert(before.contains_key(k));
                        }
                    }
                }
            } else {
                proof {
                    assert forall|k: DistanceKey| #[trigger] distances@.contains_key(k) <==> pairs_done(bs, k, i as int, j + 1) by {
                        if pairs_done(bs, k, i as int, j + 1) && !pairs_done(bs, k, i as int, j as int) {
                            let t = choose|t: int| 0 <= t < j + 1 && t < bs.len() && (#[trigger] bs[t]).id == k.finish_building_id;
                            if t < j {
                                assert(has_id(bs, k.finish_building_id, j as int));
                            }
                        }
                        if pairs_done(bs, k, i as int, j as int) {
                            if i < bs.len() && bs[i as int].id == k.start_building_id && has_id(bs, k.finish_building_id, j as int) {
                                let t = choose|t: int| 0 <= t < j && t < bs.len() && (#[trigger] bs[t]).id == k.finish_building_id;
                                assert(has_id(bs, k.finish_building_id, j + 1));
                            }
                        }
                    }
                }
            }
            j = j + 1;
        }
        proof {
            assert forall|k: DistanceKey| #[trigger] distances@.contains_key(k) <==> pairs_done(bs, k, i + 1, 0) by {
                if pairs_done(bs, k, i as int, n as int) {
                    if bs[i as int].id == k.start_building_id && has_id(bs, k.finish_building_id, n as int) {
                        assert(has_id(bs, k.start_building_id, i + 1));
                    } else {
                        let t = choose|t: int| 0 <= t < i && t < bs.len() && (#[trigger] bs[t]).id == k.start_building_id;
                        assert(has_id(bs, k.start_building_id, i + 1));
                    }
                }
                if pairs_done(bs, k, i + 1, 0) {
                    let t = choose|t: int| 0 <= t < i + 1 && t < bs.len() && (#[trigger] bs[t]).id == k.start_building_id;
                    if t < i {
                        assert(has_id(bs, k.start_building_id, i as int));
                    }
                }
            }
        }
        i = i + 1;
    }
    proof {
        if ids_distinct(bs) {
            assert forall|a: int, b: int|
                0 <= a < bs.len() && 0 <= b < bs.len() && a != b implies #[trigger] distances@.contains_key(pair_key(bs[a].id, bs[b].id))
                    && distance_record_ok(*map, bs[a], bs[b], distances@[pair_key(bs[a].id, bs[b].id)]) by {
                let k = pair_key(bs[a].id, bs[b].id);
                assert(has_id(bs, k.start_building_id, n as int));
                assert(has_id(bs, k.finish_building_id, n as int));
                assert(bs[a].id != bs[b].id);
                assert(distances@.contains_key(k));
                assert(recorded_from_pair(*map, bs, k, distances@[k]));
                let (a2, b2) = choose|a2: int, b2: int|
                    0 <= a2 < bs.len() && 0 <= b2 < bs.len() && (#[trigger] bs[a2]).id == k.start_building_id && (#[trigger] bs[b2]).id
                        == k.finish_building_id && distance_record_ok(*map, bs[a2], bs[b2], distances@[k]);
                assert(bs[a2].id == bs[a].id && bs[b2].id == bs[b].id);
                if a2 != a {
                    assert(ids_distinct(bs));
                    assert(bs[a2].id != bs[a].id);
                }
                if b2 != b {
                    assert(bs[b2].id != bs[b].id);
                }
            }
        }
    }
    distances
}

} // verus!
