use vstd::prelude::*;

use crate::buildings::{BuildingType, PlacementView};

use super::pathfinding::ids_distinct;
use super::production_cycle::WOOD_BUY_GOLD;
use super::simulator::Simulator;

verus! {

/// Wood and gold to construct every building of a layout.
#[derive(Debug, Clone, Copy, PartialEq, Eq, Structural)]
pub struct SetupCost {
    pub wood: u64,
    pub gold: u64,
}

/// Total build wood of the buildings.
pub open spec fn wood_total(bs: Seq<PlacementView>) -> int
    decreases bs.len(),
{
    if bs.len() == 0 {
        0
    } else {
        wood_total(bs.drop_last()) + bs.last().building_type.cost_of().wood
    }
}

/// Total build gold of the buildings.
pub open spec fn gold_total(bs: Seq<PlacementView>) -> int
    decreases bs.len(),
{
    if bs.len() == 0 {
        0
    } else {
        gold_total(bs.drop_last()) + bs.last().building_type.cost_of().gold
    }
}

/// Workers a building employs: three at a wind mill, one at a farm, a
/// bakery or a weapon workshop.
pub open spec fn workers_at(t: BuildingType) -> int {
    if t == BuildingType::Windmill {
        3
    } else if t == BuildingType::WheatFarm || t == BuildingType::Bakery || t.is_weapon_workshop() {
        1
    } else {
        0
    }
}

/// Workers the buildings employ.
pub open spec fn worker_total(bs: Seq<PlacementView>) -> int
    decreases bs.len(),
{
    if bs.len() == 0 {
        0
    } else {
        worker_total(bs.drop_last()) + workers_at(bs.last().building_type)
    }
}

/// Buildings of type `t`.
pub open spec fn type_count(bs: Seq<PlacementView>, t: BuildingType) -> int
    decreases bs.len(),
{
    if bs.len() == 0 {
        0
    } else {
        type_count(bs.drop_last(), t) + if bs.last().building_type == t {
            1int
        } else {
            0int
        }
    }
}

/// `v`, or `u64::MAX` when it does not fit.
pub open spec fn capped_u64(v: int) -> int {
    if v > u64::MAX {
        u64::MAX as int
    } else {
        v
    }
}

proof fn lemma_totals_grow(bs: Seq<PlacementView>)
    ensures
        0 <= wood_total(bs) <= 20 * bs.len(),
        0 <= gold_total(bs) <= 200 * bs.len(),
        0 <= worker_total(bs) <= 3 * bs.len(),
    decreases bs.len(),
{
    if bs.len() > 0 {
        lemma_totals_grow(bs.drop_last());
    }
}

/// Buildings with distinct `u32` identifiers number at most `2^32`.
proof fn lemma_count_bounded_by_ids(bs: Seq<PlacementView>)
    requires
        ids_distinct(bs),
    ensures
        bs.len() <= 0x1_0000_0000,
{
    let ids = bs.map_values(|b: PlacementView| b.id as int);
    assert(ids.no_duplicates()) by {
        assert forall|i: int, j: int| 0 <= i < ids.len() && 0 <= j < ids.len() && i != j implies ids[i] != ids[j] by {
            assert(bs[i].id != bs[j].id);
        }
    }
    ids.unique_seq_to_set();
    let range = vstd::set_lib::set_int_range(0, 0x1_0000_0000);
    vstd::set_lib::lemma_int_range(0, 0x1_0000_0000);
    assert(ids.to_set().subset_of(range)) by {
        assert forall|v: int| ids.to_set().contains(v) implies range.contains(v) by {
            let k = choose|k: int| 0 <= k < ids.len() && ids[k] == v;
            assert(ids[k] == bs[k].id as int);
        }
    }
    vstd::set_lib::lemma_len_subset(ids.to_set(), range);
}

/// Gold for a setup when its build wood is bought too.
pub fn gold_with_bought_wood(cost: SetupCost) -> (r: u64)
    ensures
        r == capped_u64(cost.gold + cost.wood * WOOD_BUY_GOLD),
{
    let wood_gold = match cost.wood.checked_mul(WOOD_BUY_GOLD as u64) {
        Some(v) => v,
        None => return u64::MAX,
    };
    match cost.gold.checked_add(wood_gold) {
        Some(v) => v,
        None => u64::MAX,
    }
}

proof fn use_wf_count(s: &Simulator)
    requires
        s.wf(),
    ensures
        s.buildings_view().len() <= 0x1_0000_0000,
{
    assert(ids_distinct(s.buildings_view()));
    lemma_count_bounded_by_ids(s.buildings_view());
}

impl Simulator {
    /// Wood and gold to construct every placed building.
    pub fn setup_cost(&self) -> (r: SetupCost)
        requires
            self.wf(),
        ensures
            r.wood == wood_total(self.buildings_view()),
            r.gold == gold_total(self.buildings_view()),
    {
        let ghost bs = self.buildings_view();
        proof {
            use_wf_count(self);
        }
        let buildings = self.buildings();
        let mut wood: u64 = 0;
        let mut gold: u64 = 0;
        let mut i: usize = 0;
        while i < buildings.len()
            invariant
                bs == self.buildings_view(),
                crate::buildings::views(buildings@) == bs,
                i <= bs.len(),
                bs.len() <= 0x1_0000_0000,
                wood == wood_total(bs.subrange(0, i as int)),
                gold == gold_total(bs.subrange(0, i as int)),
            decreases bs.len() - i,
        {
            assert(bs.subrange(0, i + 1).drop_last() =~= bs.subrange(0, i as int));
            assert(buildings@[i as int]@ == bs[i as int]);
            proof {
                lemma_totals_grow(bs.subrange(0, i + 1));
            }
            let cost = buildings[i].building_type.build_cost();
            wood = wood + cost.wood as u64;
            gold = gold + cost.gold as u64;
            i = i + 1;
        }
        assert(bs.subrange(0, i as int) =~= bs);
        SetupCost { wood, gold }
    }

    /// Workers the placed production buildings employ.
    pub fn placed_economy_workers(&self) -> (r: u64)
        requires
            self.wf(),
        ensures
            r == worker_total(self.buildings_view()),
    {
        let ghost bs = self.buildings_view();
        proof {
            use_wf_count(self);
        }
        let buildings = self.buildings();
        let mut workers: u64 = 0;
        let mut i: usize = 0;
        while i < buildings.len()
            invariant
                bs == self.buildings_view(),
                crate::buildings::views(buildings@) == bs,
                i <= bs.len(),
                bs.len() <= 0x1_0000_0000,
                workers == worker_total(bs.subrange(0, i as int)),
            decreases bs.len() - i,
        {
            assert(bs.subrange(0, i + 1).drop_last() =~= bs.subrange(0, i as int));
            assert(buildings@[i as int]@ == bs[i as int]);
            proof {
                lemma_totals_grow(bs.subrange(0, i + 1));
            }
            let t = buildings[i].building_type;
            let add: u64 = if t == BuildingType::Windmill {
                3
            } else if t == BuildingType::WheatFarm || t == BuildingType::Bakery || t.is_workshop() {
                1
            } else {
                0
            };
            workers = workers + add;
            i = i + 1;
        }
        assert(bs.subrange(0, i as int) =~= bs);
        workers
    }

    /// Number of placed buildings of type `t`.
    pub fn count_of_type(&self, t: BuildingType) -> (r: usize)
        ensures
            r == type_count(self.buildings_view(), t),
    {
        let ghost bs = self.buildings_view();
        let buildings = self.buildings();
        let mut n: usize = 0;
        let mut i: usize = 0;
        while i < buildings.len()
            invariant
                bs == self.buildings_view(),
                crate::buildings::views(buildings@) == bs,
                i <= bs.len(),
                n == type_count(bs.subrange(0, i as int), t),
                n <= i,
            decreases bs.len() - i,
        {
            assert(bs.subrange(0, i + 1).drop_last() =~= bs.subrange(0, i as int));
            assert(buildings@[i as int]@ == bs[i as int]);
            if buildings[i].building_type == t {
                n = n + 1;
            }
            i = i + 1;
        }
        assert(bs.subrange(0, i as int) =~= bs);
        n
    }
}

} // verus!
