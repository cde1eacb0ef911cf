use vstd::prelude::*;

use super::{
    BuildingComponent, BuildingType, EntryPoint, Footprint, FootprintView, StockpileResource, flagged_offsets,
};
use super::footprint::{lemma_flagged_offsets_bounded, lemma_flagged_offsets_subset};

verus! {

/// A building placed on the map, anchored at its bottom-left cell.
#[derive(Debug, Clone)]
pub struct BuildingPlacement {
    pub id: u32,
    pub building_type: BuildingType,
    pub x: i32,
    pub y: i32,
    pub goods_yard_group_id: Option<u32>,
    pub stockpile_resource: Option<StockpileResource>,
    pub entry_point: Option<EntryPoint>,
    pub footprint: Footprint,
    pub components: Vec<BuildingComponent>,
}

/// Everything a placement holds, as plain values.
pub struct PlacementView {
    pub id: u32,
    pub building_type: BuildingType,
    pub x: i32,
    pub y: i32,
    pub goods_yard_group_id: Option<u32>,
    pub stockpile_resource: Option<StockpileResource>,
    pub entry_point: Option<EntryPoint>,
    pub footprint: FootprintView,
    pub components: Seq<BuildingComponent>,
}

impl View for BuildingPlacement {
    type V = PlacementView;

    open spec fn view(&self) -> PlacementView {
        PlacementView {
            id: self.id,
            building_type: self.building_type,
            x: self.x,
            y: self.y,
            goods_yard_group_id: self.goods_yard_group_id,
            stockpile_resource: self.stockpile_resource,
            entry_point: self.entry_point,
            footprint: self.footprint@,
            components: self.components@,
        }
    }
}

/// The views of a list of placements.
pub open spec fn views(s: Seq<BuildingPlacement>) -> Seq<PlacementView> {
    s.map_values(|b: BuildingPlacement| b@)
}

/// Offsets shifted to an anchor cell.
pub open spec fn shifted_cells(x: i32, y: i32, offsets: Seq<(usize, usize)>) -> Seq<(i32, i32)> {
    offsets.map_values(|o: (usize, usize)| ((x + o.0) as i32, (y + o.1) as i32))
}

fn shift_offsets(x: i32, y: i32, offsets: Vec<(usize, usize)>, w: Ghost<nat>, h: Ghost<nat>) -> (r: Vec<(i32, i32)>)
    requires
        x + w@ <= i32::MAX + 1,
        y + h@ <= i32::MAX + 1,
        forall|k: int| 0 <= k < offsets@.len() ==> (#[trigger] offsets@[k]).0 < w@ && offsets@[k].1 < h@,
    ensures
        r@ == shifted_cells(x, y, offsets@),
{
    let mut r: Vec<(i32, i32)> = Vec::new();
    let mut k: usize = 0;
    while k < offsets.len()
        invariant
            x + w@ <= i32::MAX + 1,
            y + h@ <= i32::MAX + 1,
            forall|k: int| 0 <= k < offsets@.len() ==> (#[trigger] offsets@[k]).0 < w@ && offsets@[k].1 < h@,
            k <= offsets@.len(),
            r@ =~= shifted_cells(x, y, offsets@.subrange(0, k as int)),
        decreases offsets@.len() - k,
    {
        let (dx, dy) = offsets[k];
        let cx: i64 = x as i64 + dx as i64;
        let cy: i64 = y as i64 + dy as i64;
        r.push((cx as i32, cy as i32));
        k = k + 1;
    }
    assert(offsets@.subrange(0, k as int) =~= offsets@);
    r
}

impl PlacementView {
    /// The footprint is well formed and every cell has an `i32` coordinate.
    pub open spec fn fits(self) -> bool {
        &&& self.footprint.wf()
        &&& self.footprint.width > 0
        &&& self.x + self.footprint.width <= i32::MAX + 1
        &&& self.y + self.footprint.height <= i32::MAX + 1
    }

    pub open spec fn occupied_cells_spec(self) -> Seq<(i32, i32)> {
        shifted_cells(self.x, self.y, self.footprint.occupied_offsets_spec())
    }

    pub open spec fn blocking_cells_spec(self) -> Seq<(i32, i32)> {
        shifted_cells(self.x, self.y, self.footprint.blocking_offsets_spec())
    }

    /// Whether the building reserves cell `(x, y)`.
    pub open spec fn covers(self, x: i32, y: i32) -> bool {
        self.occupied_cells_spec().contains((x, y))
    }

    /// Whether the building blocks movement on cell `(x, y)`.
    pub open spec fn blocks(self, x: i32, y: i32) -> bool {
        self.blocking_cells_spec().contains((x, y))
    }
}

impl BuildingPlacement {
    pub open spec fn fits(self) -> bool {
        self@.fits()
    }

    pub open spec fn occupied_cells_spec(self) -> Seq<(i32, i32)> {
        self@.occupied_cells_spec()
    }

    pub open spec fn blocking_cells_spec(self) -> Seq<(i32, i32)> {
        self@.blocking_cells_spec()
    }

    pub open spec fn covers(self, x: i32, y: i32) -> bool {
        self@.covers(x, y)
    }

    pub fn occupied_cells(&self) -> (r: Vec<(i32, i32)>)
        requires
            self.fits(),
        ensures
            r@ == self.occupied_cells_spec(),
    {
        proof {
            lemma_flagged_offsets_bounded(self.footprint@.occupied, self.footprint@.width, self.footprint@.height);
        }
        let offsets = self.footprint.occupied_offsets();
        shift_offsets(self.x, self.y, offsets, Ghost(self.footprint@.width), Ghost(self.footprint@.height))
    }

    pub fn blocking_cells(&self) -> (r: Vec<(i32, i32)>)
        requires
            self.fits(),
        ensures
            r@ == self.blocking_cells_spec(),
    {
        proof {
            lemma_flagged_offsets_bounded(self.footprint@.blocking, self.footprint@.width, self.footprint@.height);
        }
        let offsets = self.footprint.blocking_offsets();
        shift_offsets(self.x, self.y, offsets, Ghost(self.footprint@.width), Ghost(self.footprint@.height))
    }

    pub fn width(&self) -> (r: usize)
        ensures
            r == self.footprint@.width,
    {
        self.footprint.width()
    }

    pub fn height(&self) -> (r: usize)
        ensures
            r == self.footprint@.height,
    {
        self.footprint.height()
    }

    pub fn components(&self) -> (r: &[BuildingComponent])
        ensures
            r@ == self.components@,
    {
        self.components.as_slice()
    }

    /// A field-by-field copy.
    pub fn duplicate(&self) -> (r: BuildingPlacement)
        ensures
            r@ == self@,
    {
        BuildingPlacement {
            id: self.id,
            building_type: self.building_type,
            x: self.x,
            y: self.y,
            goods_yard_group_id: self.goods_yard_group_id,
            stockpile_resource: self.stockpile_resource,
            entry_point: self.entry_point,
            footprint: self.footprint.duplicate(),
            components: copy_components(&self.components),
        }
    }
}

/// Blocking cells of a fitting placement are among its reserved cells.
pub proof fn lemma_blocking_within_occupied(p: PlacementView)
    requires
        p.fits(),
    ensures
        forall|k: int|
            0 <= k < p.blocking_cells_spec().len() ==> p.occupied_cells_spec().contains(
                #[trigger] p.blocking_cells_spec()[k],
            ),
{
    let fp = p.footprint;
    lemma_flagged_offsets_subset(fp.blocking, fp.occupied, fp.width);
    assert forall|k: int| 0 <= k < p.blocking_cells_spec().len() implies p.occupied_cells_spec().contains(
        #[trigger] p.blocking_cells_spec()[k],
    ) by {
        let o = flagged_offsets(fp.blocking, fp.width)[k];
        let j = choose|j: int| 0 <= j < flagged_offsets(fp.occupied, fp.width).len() && flagged_offsets(fp.occupied, fp.width)[j] == o;
        assert(p.occupied_cells_spec()[j] == p.blocking_cells_spec()[k]);
    }
}

fn copy_components(v: &Vec<BuildingComponent>) -> (r: Vec<BuildingComponent>)
    ensures
        r@ == v@,
{
    let mut r: Vec<BuildingComponent> = Vec::new();
    let mut i: usize = 0;
    while i < v.len()
        invariant
            i <= v@.len(),
            r@ =~= v@.subrange(0, i as int),
        decreases v@.len() - i,
    {
        r.push(v[i]);
        i = i + 1;
    }
    assert(v@.subrange(0, i as int) =~= v@);
    r
}

} // verus!
