use vstd::prelude::*;

use crate::buildings::{BuildingType, PlacementView};

use super::distance::{BuildingDistance, DistanceKey};
use super::production_cycle::{
    ProductionCycle, ProductionCycleError, ProductionRouteUsage, SimulationSettings, WeaponType, distance_sum,
    production_routes, ticks_sum,
};
use super::simulator::Simulator;

verus! {

/// Ticks of a whole cycle over routes `u`: walking plus making.
pub open spec fn cycle_ticks(u: Seq<ProductionRouteUsage>, weapon: WeaponType) -> int {
    ticks_sum(u) + weapon.recipe_spec().make_time_ticks
}

/// Position in `ids` of the armoury with the quickest cycle for workshop
/// `w`; the first of equally quick ones.
pub open spec fn quickest(
    bs: Seq<PlacementView>,
    wt: Map<DistanceKey, BuildingDistance>,
    weapon: WeaponType,
    w: u32,
    ids: Seq<u32>,
    optimized: bool,
) -> Option<int>
    decreases ids.len(),
{
    if ids.len() == 0 {
        None
    } else {
        let prev = quickest(bs, wt, weapon, w, ids.drop_last(), optimized);
        let k = ids.len() - 1;
        match production_routes(bs, wt, weapon, w, ids[k], optimized) {
            Ok(u) => match prev {
                None => Some(k),
                Some(j) => if cycle_ticks(u, weapon) < cycle_ticks(
                    production_routes(bs, wt, weapon, w, ids[j], optimized)->Ok_0,
                    weapon,
                ) {
                    Some(k)
                } else {
                    Some(j)
                },
            },
            Err(_) => prev,
        }
    }
}

/// Why the first armoury in `ids` without a cycle has none.
pub open spec fn first_failure(
    bs: Seq<PlacementView>,
    wt: Map<DistanceKey, BuildingDistance>,
    weapon: WeaponType,
    w: u32,
    ids: Seq<u32>,
    optimized: bool,
) -> Option<ProductionCycleError>
    decreases ids.len(),
{
    if ids.len() == 0 {
        None
    } else {
        let prev = first_failure(bs, wt, weapon, w, ids.drop_last(), optimized);
        if prev is Some {
            prev
        } else {
            match production_routes(bs, wt, weapon, w, ids[ids.len() - 1], optimized) {
                Err(e) => Some(e),
                Ok(_) => None,
            }
        }
    }
}

/// `c` is the cycle of `weapon` in workshop `w` with armoury `a` over the
/// routes `u`.
pub open spec fn cycle_over(c: ProductionCycle, weapon: WeaponType, w: u32, a: u32, u: Seq<ProductionRouteUsage>) -> bool {
    &&& c.recipe == weapon.recipe_spec()
    &&& c.workshop_id == w
    &&& c.armoury_id == a
    &&& c.route_usage@ == u
    &&& c.travel_distance_cells == distance_sum(u)
    &&& c.travel_ticks == ticks_sum(u)
    &&& c.make_ticks == weapon.recipe_spec().make_time_ticks
    &&& c.total_ticks == cycle_ticks(u, weapon)
}

/// The outcome of choosing an armoury for workshop `w` among `ids`: none to
/// choose from, the quickest cycle, or why the first armoury has none when
/// no armoury has one.
pub open spec fn choice_ok(
    r: Option<Result<ProductionCycle, ProductionCycleError>>,
    bs: Seq<PlacementView>,
    wt: Map<DistanceKey, BuildingDistance>,
    weapon: WeaponType,
    w: u32,
    ids: Seq<u32>,
    optimized: bool,
) -> bool {
    if ids.len() == 0 {
        r is None
    } else {
        match quickest(bs, wt, weapon, w, ids, optimized) {
            Some(k) => r matches Some(Ok(c)) && cycle_over(
                c,
                weapon,
                w,
                ids[k],
                production_routes(bs, wt, weapon, w, ids[k], optimized)->Ok_0,
            ),
            None => r matches Some(Err(e)) && first_failure(bs, wt, weapon, w, ids, optimized) == Some(e),
        }
    }
}

/// The identifiers of the armouries, in placement order.
pub open spec fn armoury_ids_of(bs: Seq<PlacementView>) -> Seq<u32>
    decreases bs.len(),
{
    if bs.len() == 0 {
        Seq::empty()
    } else {
        let rest = armoury_ids_of(bs.drop_last());
        if bs.last().building_type == BuildingType::Armoury {
            rest.push(bs.last().id)
        } else {
            rest
        }
    }
}

/// The weapon workshops, in placement order.
pub open spec fn workshops_of(bs: Seq<PlacementView>) -> Seq<PlacementView>
    decreases bs.len(),
{
    if bs.len() == 0 {
        Seq::empty()
    } else {
        let rest = workshops_of(bs.drop_last());
        if bs.last().building_type.is_weapon_workshop() {
            rest.push(bs.last())
        } else {
            rest
        }
    }
}

/// A workshop with the weapon it makes and its best cycle.
#[derive(Debug)]
pub struct WorkshopCycle {
    pub workshop_id: u32,
    pub workshop_type: BuildingType,
    pub weapon_type: WeaponType,
    pub outcome: Option<Result<ProductionCycle, ProductionCycleError>>,
}

/// Every quickest route made of the same walks is found again after a
/// failure is skipped: the chosen position always has routes.
proof fn lemma_quickest_has_routes(
    bs: Seq<PlacementView>,
    wt: Map<DistanceKey, BuildingDistance>,
    weapon: WeaponType,
    w: u32,
    ids: Seq<u32>,
    optimized: bool,
)
    ensures
        quickest(bs, wt, weapon, w, ids, optimized) matches Some(k) ==> 0 <= k < ids.len() && production_routes(
            bs,
            wt,
            weapon,
            w,
            ids[k],
            optimized,
        ) is Ok,
        quickest(bs, wt, weapon, w, ids, optimized) is None ==> forall|i: int|
            0 <= i < ids.len() ==> production_routes(bs, wt, weapon, w, #[trigger] ids[i], optimized) is Err,
    decreases ids.len(),
{
    if ids.len() > 0 {
        let d = ids.drop_last();
        lemma_quickest_has_routes(bs, wt, weapon, w, d, optimized);
        assert forall|i: int| 0 <= i < d.len() implies d[i] == ids[i] by {}
    }
}

/// With no armoury that has a cycle, the first one's failure is reported.
proof fn lemma_failure_found(
    bs: Seq<PlacementView>,
    wt: Map<DistanceKey, BuildingDistance>,
    weapon: WeaponType,
    w: u32,
    ids: Seq<u32>,
    optimized: bool,
)
    requires
        ids.len() > 0,
        production_routes(bs, wt, weapon, w, ids[0], optimized) is Err,
    ensures
        first_failure(bs, wt, weapon, w, ids, optimized) == Some(
            production_routes(bs, wt, weapon, w, ids[0], optimized)->Err_0,
        ),
    decreases ids.len(),
{
    let d = ids.drop_last();
    if ids.len() > 1 {
        assert(d[0] == ids[0]);
        lemma_failure_found(bs, wt, weapon, w, d, optimized);
    } else {
        assert(first_failure(bs, wt, weapon, w, d, optimized) is None);
        assert(ids[ids.len() - 1] == ids[0]);
    }
}

/// One row per weapon workshop of `s`, in placement order, with the weapon
/// the settings select for it and its quickest cycle over all armouries.
pub open spec fn cycle_rows_ok(s: Simulator, rows: Seq<WorkshopCycle>, settings: SimulationSettings) -> bool {
    &&& rows.len() == workshops_of(s.buildings_view()).len()
    &&& forall|i: int|
        0 <= i < rows.len() ==> {
            let row = #[trigger] rows[i];
            let w = workshops_of(s.buildings_view())[i];
            &&& row.workshop_id == w.id
            &&& row.workshop_type == w.building_type
            &&& Some(row.weapon_type) == settings.selected_weapon_spec(w.building_type)
            &&& choice_ok(
                row.outcome,
                s.buildings_view(),
                s.worker_table()@,
                row.weapon_type,
                w.id,
                armoury_ids_of(s.buildings_view()),
                settings.optimized_fletcher_routing,
            )
        }
}

impl Simulator {
    /// The identifiers of the placed armouries, in placement order.
    pub fn armoury_ids(&self) -> (r: Vec<u32>)
        ensures
            r@ == armoury_ids_of(self.buildings_view()),
    {
        let ghost bs = self.buildings_view();
        let buildings = self.buildings();
        let mut ids: Vec<u32> = Vec::new();
        let mut i: usize = 0;
        while i < buildings.len()
            invariant
                bs == self.buildings_view(),
                crate::buildings::views(buildings@) == bs,
                i <= bs.len(),
                ids@ == armoury_ids_of(bs.subrange(0, i as int)),
            decreases bs.len() - i,
        {
            assert(bs.subrange(0, i + 1).drop_last() =~= bs.subrange(0, i as int));
            assert(buildings@[i as int]@ == bs[i as int]);
            if buildings[i].building_type == BuildingType::Armoury {
                ids.push(buildings[i].id);
            }
            i = i + 1;
        }
        assert(bs.subrange(0, i as int) =~= bs);
        ids
    }

    /// The quickest production cycle of `weapon_type` in workshop
    /// `workshop_id` over the armouries `armoury_ids`: `None` without an
    /// armoury, otherwise the cycle with the fewest ticks (the first of
    /// equally quick ones), or, when no armoury gives a cycle, why the
    /// first one does not.
    pub fn best_production_cycle(
        &self,
        weapon_type: WeaponType,
        workshop_id: u32,
        armoury_ids: &Vec<u32>,
        settings: SimulationSettings,
    ) -> (r: Option<Result<ProductionCycle, ProductionCycleError>>)
        requires
            self.wf(),
        ensures
            choice_ok(
                r,
                self.buildings_view(),
                self.worker_table()@,
                weapon_type,
                workshop_id,
                armoury_ids@,
                settings.optimized_fletcher_routing,
            ),
    {
        let ghost bs = self.buildings_view();
        let ghost wt = self.worker_table()@;
        let ghost opt = settings.optimized_fletcher_routing;
        let ghost ids = armoury_ids@;
        if armoury_ids.len() == 0 {
            return None;
        }
        let mut best: Option<ProductionCycle> = None;
        let mut first_error: Option<ProductionCycleError> = None;
        let mut i: usize = 0;
        while i < armoury_ids.len()
            invariant
                self.wf(),
                bs == self.buildings_view(),
                wt == self.worker_table()@,
                opt == settings.optimized_fletcher_routing,
                ids == armoury_ids@,
                i <= ids.len(),
                match quickest(bs, wt, weapon_type, workshop_id, ids.subrange(0, i as int), opt) {
                    Some(k) => best matches Some(c) && cycle_over(
                        c,
                        weapon_type,
                        workshop_id,
                        ids[k],
                        production_routes(bs, wt, weapon_type, workshop_id, ids[k], opt)->Ok_0,
                    ),
                    None => best is None,
                },
                first_error == first_failure(bs, wt, weapon_type, workshop_id, ids.subrange(0, i as int), opt),
            decreases ids.len() - i,
        {
            let ghost prefix = ids.subrange(0, i as int);
            let ghost longer = ids.subrange(0, i + 1);
            assert(longer.drop_last() =~= prefix);
            assert(longer[i as int] == ids[i as int]);
            proof {
                lemma_quickest_has_routes(bs, wt, weapon_type, workshop_id, prefix, opt);
                assert forall|j: int| 0 <= j < prefix.len() implies prefix[j] == ids[j] by {}
            }
            let armoury_id = armoury_ids[i];
            match self.calculate_production_cycle(weapon_type, workshop_id, armoury_id, settings) {
                Ok(cycle) => {
                    let replace = match &best {
                        None => true,
                        Some(current) => cycle.total_ticks < current.total_ticks,
                    };
                    if replace {
                        best = Some(cycle);
                    }
                },
                Err(e) => {
                    if first_error.is_none() {
                        first_error = Some(e);
                    }
                },
            }
            i = i + 1;
        }
        assert(ids.subrange(0, i as int) =~= ids);
        match best {
            Some(c) => Some(Ok(c)),
            None => {
                proof {
                    lemma_quickest_has_routes(bs, wt, weapon_type, workshop_id, ids, opt);
                    lemma_failure_found(bs, wt, weapon_type, workshop_id, ids, opt);
                }
                match first_error {
                    Some(e) => Some(Err(e)),
                    None => None,
                }
            },
        }
    }

    /// For every weapon workshop, in placement order: the weapon the
    /// settings select for it and its quickest cycle over all armouries.
    pub fn workshop_cycles(&self, settings: SimulationSettings) -> (r: Vec<WorkshopCycle>)
        requires
            self.wf(),
        ensures
            cycle_rows_ok(*self, r@, settings),
    {
        let ghost bs = self.buildings_view();
        let armouries = self.armoury_ids();
        let buildings = self.buildings();
        let mut rows: Vec<WorkshopCycle> = Vec::new();
        let mut i: usize = 0;
        while i < buildings.len()
            invariant
                self.wf(),
                bs == self.buildings_view(),
                crate::buildings::views(buildings@) == bs,
                armouries@ == armoury_ids_of(bs),
                i <= bs.len(),
                rows@.len() == workshops_of(bs.subrange(0, i as int)).len(),
                forall|k: int|
                    0 <= k < rows@.len() ==> {
                        let row = #[trigger] rows@[k];
                        let w = workshops_of(bs.subrange(0, i as int))[k];
                        &&& row.workshop_id == w.id
                        &&& row.workshop_type == w.building_type
                        &&& Some(row.weapon_type) == settings.selected_weapon_spec(w.building_type)
                        &&& choice_ok(
                            row.outcome,
                            bs,
                            self.worker_table()@,
                            row.weapon_type,
                            w.id,
                            armoury_ids_of(bs),
                            settings.optimized_fletcher_routing,
                        )
                    },
            decreases bs.len() - i,
        {
            let ghost before = workshops_of(bs.subrange(0, i as int));
            assert(bs.subrange(0, i + 1).drop_last() =~= bs.subrange(0, i as int));
            assert(buildings@[i as int]@ == bs[i as int]);
            let t = buildings[i].building_type;
            if t.is_workshop() {
                let weapon = match settings.selected_weapon_for(t) {
                    Some(w) => w,
                    None => {
                        assert(false);
                        WeaponType::Bow
                    },
                };
                let id = buildings[i].id;
                let outcome = self.best_production_cycle(weapon, id, &armouries, settings);
                rows.push(WorkshopCycle { workshop_id: id, workshop_type: t, weapon_type: weapon, outcome });
                assert(workshops_of(bs.subrange(0, i + 1)) == before.push(bs[i as int]));
            }
            i = i + 1;
        }
        assert(bs.subrange(0, i as int) =~= bs);
        rows
    }
}

} // verus!
