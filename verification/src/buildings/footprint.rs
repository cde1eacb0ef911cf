use vstd::prelude::*;

use super::BuildingType;

verus! {

/// The mathematical content of a footprint: a `width x height` grid stored
/// row by row, with a flag per cell for "reserved" and for "blocks paths".
pub struct FootprintView {
    pub width: nat,
    pub height: nat,
    pub occupied: Seq<bool>,
    pub blocking: Seq<bool>,
}

/// The cells a building reserves and the cells that block movement,
/// relative to the building's bottom-left anchor.
#[derive(Debug, Clone)]
pub struct Footprint {
    width: usize,
    height: usize,
    occupied: Vec<bool>,
    blocking: Vec<bool>,
}

/// Offsets `(index % width, index / width)` of the set flags, in index order.
pub open spec fn flagged_offsets(flags: Seq<bool>, width: nat) -> Seq<(usize, usize)>
    decreases flags.len(),
{
    if flags.len() == 0 {
        Seq::empty()
    } else {
        let i = flags.len() - 1;
        let earlier = flagged_offsets(flags.drop_last(), width);
        if flags[i] {
            earlier.push(((i % (width as int)) as usize, (i / (width as int)) as usize))
        } else {
            earlier
        }
    }
}

/// Side length of the square template of each building type.
pub open spec fn shape_size(t: BuildingType) -> nat {
    match t {
        BuildingType::GoodsYard => 5,
        BuildingType::Stockpile => 2,
        BuildingType::Windmill => 3,
        BuildingType::WheatFarm => 9,
        _ => 4,
    }
}

/// Whether a goods-yard template cell belongs to one of its four corner stacks.
pub open spec fn goods_yard_stack_cell(dx: int, dy: int) -> bool {
    (dx <= 1 || dx >= 3) && (dy <= 1 || dy >= 3)
}

/// Whether the template of `t` reserves offset `(dx, dy)`.
pub open spec fn shape_occupies(t: BuildingType, dx: int, dy: int) -> bool {
    &&& 0 <= dx < shape_size(t)
    &&& 0 <= dy < shape_size(t)
    &&& (t == BuildingType::GoodsYard ==> goods_yard_stack_cell(dx, dy))
}

/// Whether the template of `t` blocks movement at offset `(dx, dy)`: a wheat
/// farm blocks only its 3x3 cabin in the top-left corner.
pub open spec fn shape_blocks(t: BuildingType, dx: int, dy: int) -> bool {
    &&& shape_occupies(t, dx, dy)
    &&& (t == BuildingType::WheatFarm ==> dx < 3 && dy >= 6)
}

/// The footprint every building of type `t` has.
pub open spec fn type_footprint(t: BuildingType) -> FootprintView {
    let s = shape_size(t);
    FootprintView {
        width: s,
        height: s,
        occupied: Seq::new(s * s, |i: int| shape_occupies(t, i % (s as int), i / (s as int))),
        blocking: Seq::new(s * s, |i: int| shape_blocks(t, i % (s as int), i / (s as int))),
    }
}

fn shape_cell(t: BuildingType, dx: usize, dy: usize) -> (r: (bool, bool))
    ensures
        r.0 == shape_occupies(t, dx as int, dy as int),
        r.1 == shape_blocks(t, dx as int, dy as int),
{
    let size: usize = match t {
        BuildingType::GoodsYard => 5,
        BuildingType::Stockpile => 2,
        BuildingType::Windmill => 3,
        BuildingType::WheatFarm => 9,
        _ => 4,
    };
    if dx >= size || dy >= size {
        return (false, false);
    }
    let occupied = match t {
        BuildingType::GoodsYard => (dx <= 1 || dx >= 3) && (dy <= 1 || dy >= 3),
        _ => true,
    };
    let blocking = match t {
        BuildingType::WheatFarm => dx < 3 && dy >= 6,
        _ => occupied,
    };
    (occupied, blocking)
}

impl View for Footprint {
    type V = FootprintView;

    closed spec fn view(&self) -> FootprintView {
        FootprintView {
            width: self.width as nat,
            height: self.height as nat,
            occupied: self.occupied@,
            blocking: self.blocking@,
        }
    }
}

impl FootprintView {
    /// Flags cover the whole grid and only reserved cells block.
    pub open spec fn wf(self) -> bool {
        &&& self.width <= usize::MAX
        &&& self.height <= usize::MAX
        &&& self.occupied.len() == self.width * self.height
        &&& self.blocking.len() == self.width * self.height
        &&& forall|i: int| 0 <= i < self.blocking.len() && #[trigger] self.blocking[i] ==> self.occupied[i]
    }

    pub open spec fn occupied_offsets_spec(self) -> Seq<(usize, usize)> {
        flagged_offsets(self.occupied, self.width)
    }

    pub open spec fn blocking_offsets_spec(self) -> Seq<(usize, usize)> {
        flagged_offsets(self.blocking, self.width)
    }
}


/// Every flagged offset lies inside the grid.
pub proof fn lemma_flagged_offsets_bounded(flags: Seq<bool>, w: nat, h: nat)
    requires
        w > 0,
        w <= usize::MAX,
        h <= usize::MAX,
        flags.len() <= w * h,
    ensures
        forall|k: int|
            0 <= k < flagged_offsets(flags, w).len() ==> (#[trigger] flagged_offsets(flags, w)[k]).0 < w
                && flagged_offsets(flags, w)[k].1 < h,
    decreases flags.len(),
{
    if flags.len() > 0 {
        let i = flags.len() - 1;
        let f = flagged_offsets(flags, w);
        let p = flagged_offsets(flags.drop_last(), w);
        lemma_flagged_offsets_bounded(flags.drop_last(), w, h);
        vstd::arithmetic::div_mod::lemma_mod_pos_bound(i, w as int);
        assert(i / (w as int) < h) by (nonlinear_arith)
            requires
                0 <= i < w * h,
                w > 0,
        ;
        assert(0 <= i / (w as int)) by (nonlinear_arith)
            requires
                0 <= i,
                w > 0,
        ;
        assert forall|k: int| 0 <= k < f.len() implies (#[trigger] f[k]).0 < w && f[k].1 < h by {
            if k < p.len() {
                assert(f[k] == p[k]);
            }
        }
    }
}

/// Offsets flagged in `a` are flagged in `b` when `a` implies `b` pointwise.
pub proof fn lemma_flagged_offsets_subset(a: Seq<bool>, b: Seq<bool>, w: nat)
    requires
        a.len() == b.len(),
        forall|i: int| 0 <= i < a.len() && #[trigger] a[i] ==> b[i],
    ensures
        forall|k: int|
            0 <= k < flagged_offsets(a, w).len() ==> flagged_offsets(b, w).contains(
                #[trigger] flagged_offsets(a, w)[k],
            ),
    decreases a.len(),
{
    if a.len() > 0 {
        let i = a.len() - 1;
        lemma_flagged_offsets_subset(a.drop_last(), b.drop_last(), w);
        let fa = flagged_offsets(a, w);
        let fb = flagged_offsets(b, w);
        let pa = flagged_offsets(a.drop_last(), w);
        let pb = flagged_offsets(b.drop_last(), w);
        assert forall|k: int| 0 <= k < fa.len() implies fb.contains(#[trigger] fa[k]) by {
            if k < pa.len() {
                assert(fa[k] == pa[k]);
                let j = choose|j: int| 0 <= j < pb.len() && pb[j] == pa[k];
                assert(fb[j] == pb[j]);
            } else {
                assert(a[i]);
                assert(fb[pb.len() as int] == fa[k]);
            }
        }
    }
}

/// A set flag appears among the flagged offsets.
pub proof fn lemma_flag_offset_in(flags: Seq<bool>, w: nat, i: int)
    requires
        0 <= i < flags.len(),
        flags[i],
    ensures
        flagged_offsets(flags, w).contains(((i % (w as int)) as usize, (i / (w as int)) as usize)),
    decreases flags.len(),
{
    let last = flags.len() - 1;
    let f = flagged_offsets(flags, w);
    let p = flagged_offsets(flags.drop_last(), w);
    if i == last {
        assert(f[f.len() - 1] == ((i % (w as int)) as usize, (i / (w as int)) as usize));
    } else {
        assert(flags.drop_last()[i] == flags[i]);
        lemma_flag_offset_in(flags.drop_last(), w, i);
        let k = choose|k: int| 0 <= k < p.len() && p[k] == ((i % (w as int)) as usize, (i / (w as int)) as usize);
        if flags[last] {
            assert(f[k] == p[k]);
        } else {
            assert(f == p);
        }
    }
}

/// Every template reserves its bottom-right and top-left corner cells.
pub proof fn lemma_type_corners(t: BuildingType)
    ensures
        type_footprint(t).occupied_offsets_spec().contains(((shape_size(t) - 1) as usize, 0usize)),
        type_footprint(t).occupied_offsets_spec().contains((0usize, (shape_size(t) - 1) as usize)),
{
    let fp = type_footprint(t);
    let s = shape_size(t) as int;
    assert(fp.occupied[s - 1]);
    lemma_flag_offset_in(fp.occupied, fp.width, s - 1);
    assert((s - 1) % s == s - 1 && (s - 1) / s == 0) by (nonlinear_arith)
        requires
            s >= 2,
    ;
    assert(((s - 1) * s) % s == 0 && ((s - 1) * s) / s == s - 1) by (nonlinear_arith)
        requires
            s >= 2,
    ;
    assert(0 <= (s - 1) * s < s * s) by (nonlinear_arith)
        requires
            s >= 2,
    ;
    assert(fp.occupied[(s - 1) * s]);
    lemma_flag_offset_in(fp.occupied, fp.width, (s - 1) * s);
}

/// Every building template is well formed.
pub proof fn lemma_type_footprint_wf(t: BuildingType)
    ensures
        type_footprint(t).wf(),
{
}

fn flagged_offsets_of(flags: &Vec<bool>, width: usize) -> (r: Vec<(usize, usize)>)
    requires
        width > 0 || flags@.len() == 0,
    ensures
        r@ == flagged_offsets(flags@, width as nat),
{
    let mut r: Vec<(usize, usize)> = Vec::new();
    let mut i: usize = 0;
    while i < flags.len()
        invariant
            width > 0 || flags@.len() == 0,
            i <= flags@.len(),
            r@ == flagged_offsets(flags@.subrange(0, i as int), width as nat),
        decreases flags@.len() - i,
    {
        assert(flags@.subrange(0, (i + 1) as int).drop_last() =~= flags@.subrange(0, i as int));
        if flags[i] {
            r.push((i % width, i / width));
        }
        i = i + 1;
    }
    assert(flags@.subrange(0, i as int) =~= flags@);
    r
}

fn copy_flags(v: &Vec<bool>) -> (r: Vec<bool>)
    ensures
        r@ == v@,
{
    let mut r: Vec<bool> = Vec::new();
    let mut i: usize = 0;
    while i < v.len()
        invariant
            i <= v@.len(),
            r@ =~= v@.subrange(0, i as int),
        decreases v@.len() - i,
    {
        r.push(v[i]);
        i = i + 1;
    }
    assert(v@.subrange(0, i as int) =~= v@);
    r
}

impl Footprint {
    pub fn square(size: usize) -> (r: Footprint)
        requires
            size * size <= usize::MAX,
        ensures
            r@.wf(),
            r@.width == size,
            r@.height == size,
            r@.occupied == Seq::new((size * size) as nat, |i: int| true),
            r@.blocking == Seq::new((size * size) as nat, |i: int| true),
    {
        let occupied = vec![true; size * size];
        let blocking = vec![true; size * size];
        let r = Footprint { width: size, height: size, occupied, blocking };
        assert(r@.occupied =~= Seq::new((size * size) as nat, |i: int| true));
        assert(r@.blocking =~= Seq::new((size * size) as nat, |i: int| true));
        r
    }

    /// The footprint of buildings of type `t`.
    pub fn for_type(t: BuildingType) -> (r: Footprint)
        ensures
            r@ == type_footprint(t),
            r@.wf(),
    {
        let size: usize = match t {
            BuildingType::GoodsYard => 5,
            BuildingType::Stockpile => 2,
            BuildingType::Windmill => 3,
            BuildingType::WheatFarm => 9,
            _ => 4,
        };
        let area = size * size;
        let mut occupied: Vec<bool> = Vec::new();
        let mut blocking: Vec<bool> = Vec::new();
        let mut i: usize = 0;
        while i < area
            invariant
                size == shape_size(t),
                area == size * size,
                i <= area,
                occupied@ == Seq::new(i as nat, |j: int| shape_occupies(t, j % (size as int), j / (size as int))),
                blocking@ == Seq::new(i as nat, |j: int| shape_blocks(t, j % (size as int), j / (size as int))),
            decreases area - i,
        {
            let (o, b) = shape_cell(t, i % size, i / size);
            occupied.push(o);
            blocking.push(b);
            assert(occupied@ =~= Seq::new((i + 1) as nat, |j: int| shape_occupies(t, j % (size as int), j / (size as int))));
            assert(blocking@ =~= Seq::new((i + 1) as nat, |j: int| shape_blocks(t, j % (size as int), j / (size as int))));
            i = i + 1;
        }
        let r = Footprint { width: size, height: size, occupied, blocking };
        assert(r@ == type_footprint(t));
        r
    }

    pub fn goods_yard() -> (r: Footprint)
        ensures
            r@ == type_footprint(BuildingType::GoodsYard),
    {
        Footprint::for_type(BuildingType::GoodsYard)
    }

    pub fn wheat_farm() -> (r: Footprint)
        ensures
            r@ == type_footprint(BuildingType::WheatFarm),
    {
        Footprint::for_type(BuildingType::WheatFarm)
    }

    /// A cell-by-cell copy.
    pub fn duplicate(&self) -> (r: Footprint)
        ensures
            r@ == self@,
    {
        Footprint {
            width: self.width,
            height: self.height,
            occupied: copy_flags(&self.occupied),
            blocking: copy_flags(&self.blocking),
        }
    }

    pub fn width(&self) -> (r: usize)
        ensures
            r == self@.width,
    {
        self.width
    }

    pub fn height(&self) -> (r: usize)
        ensures
            r == self@.height,
    {
        self.height
    }

    pub fn occupied_offsets(&self) -> (r: Vec<(usize, usize)>)
        requires
            self@.wf(),
        ensures
            r@ == self@.occupied_offsets_spec(),
    {
        proof {
            if self@.width == 0 {
                assert(self@.occupied.len() == 0 * self@.height) by (nonlinear_arith)
                    requires
                        self@.occupied.len() == self@.width * self@.height,
                        self@.width == 0,
                ;
            }
        }
        flagged_offsets_of(&self.occupied, self.width)
    }

    pub fn blocking_offsets(&self) -> (r: Vec<(usize, usize)>)
        requires
            self@.wf(),
        ensures
            r@ == self@.blocking_offsets_spec(),
    {
        proof {
            if self@.width == 0 {
                assert(self@.blocking.len() == 0 * self@.height) by (nonlinear_arith)
                    requires
                        self@.blocking.len() == self@.width * self@.height,
                        self@.width == 0,
                ;
            }
        }
        flagged_offsets_of(&self.blocking, self.width)
    }
}

} // verus!
