use vstd::prelude::*;

use crate::buildings::{BuildingPlacement, BuildingType, PlacementView, StockpileResource, WORKSHOP_SLOWDOWN_BASE, views};
use crate::map::MAX_CELL_COUNT;

use super::distance::{BuildingDistance, DistanceKey, DistanceTable};
use super::pathfinding::pair_key;
use super::worker_distance::{worker_route, workshop_resource};

verus! {

/// Gold paid for one bought unit of wood.
pub const WOOD_BUY_GOLD: u32 = 4;
/// Gold paid for one bought unit of iron.
pub const IRON_BUY_GOLD: u32 = 45;
/// Ticks per cell per slowdown step of a walking unit.
pub const TICKS_PER_CELL_FACTOR: u64 = 8;
/// Least (most fearful) supported fear factor.
pub const MIN_FEAR_FACTOR: i32 = -5;
/// Greatest supported fear factor.
pub const MAX_FEAR_FACTOR: i32 = 0;
/// Number of workshop cycles in the fear output ring.
pub const WORKSHOP_FEAR_RING_LEN: usize = 10;

/// Goods the weapon workshops can produce.
#[derive(Debug, Clone, Copy, PartialEq, Eq, Hash, Structural)]
pub enum WeaponType {
    Bow,
    Crossbow,
    Spear,
    Pike,
    Sword,
    Mace,
    Armor,
}

/// Inputs, workshop and timing of one weapon.
#[derive(Debug, Clone, Copy, PartialEq, Eq, Structural)]
pub struct WeaponRecipe {
    pub weapon_type: WeaponType,
    pub workshop_type: BuildingType,
    pub wood_required: u32,
    pub iron_required: u32,
    pub make_time_ticks: u64,
    pub sell_gold: u32,
}

impl WeaponType {
    pub open spec fn name_text(self) -> Seq<char> {
        match self {
            WeaponType::Bow => "Bow"@,
            WeaponType::Crossbow => "Crossbow"@,
            WeaponType::Spear => "Spear"@,
            WeaponType::Pike => "Pike"@,
            WeaponType::Sword => "Sword"@,
            WeaponType::Mace => "Mace"@,
            WeaponType::Armor => "Armor"@,
        }
    }

    pub open spec fn id_text(self) -> Seq<char> {
        match self {
            WeaponType::Bow => "bow"@,
            WeaponType::Crossbow => "crossbow"@,
            WeaponType::Spear => "spear"@,
            WeaponType::Pike => "pike"@,
            WeaponType::Sword => "sword"@,
            WeaponType::Mace => "mace"@,
            WeaponType::Armor => "armor"@,
        }
    }

    /// The weapon production table of the simulation model.
    pub open spec fn recipe_spec(self) -> WeaponRecipe {
        match self {
            WeaponType::Bow => WeaponRecipe {
                weapon_type: self,
                workshop_type: BuildingType::FletchersWorkshop,
                wood_required: 2,
                iron_required: 0,
                make_time_ticks: 638,
                sell_gold: 15,
            },
            WeaponType::Crossbow => WeaponRecipe {
                weapon_type: self,
                workshop_type: BuildingType::FletchersWorkshop,
                wood_required: 3,
                iron_required: 0,
                make_time_ticks: 565,
                sell_gold: 30,
            },
            WeaponType::Spear => WeaponRecipe {
                weapon_type: self,
                workshop_type: BuildingType::PoleturnersWorkshop,
                wood_required: 1,
                iron_required: 0,
                make_time_ticks: 332,
                sell_gold: 10,
            },
            WeaponType::Pike => WeaponRecipe {
                weapon_type: self,
                workshop_type: BuildingType::PoleturnersWorkshop,
                wood_required: 2,
                iron_required: 0,
                make_time_ticks: 872,
                sell_gold: 18,
            },
            WeaponType::Sword => WeaponRecipe {
                weapon_type: self,
                workshop_type: BuildingType::BlacksmithsWorkshop,
                wood_required: 0,
                iron_required: 1,
                make_time_ticks: 1090,
                sell_gold: 30,
            },
            WeaponType::Mace => WeaponRecipe {
                weapon_type: self,
                workshop_type: BuildingType::BlacksmithsWorkshop,
                wood_required: 0,
                iron_required: 1,
                make_time_ticks: 910,
                sell_gold: 30,
            },
            WeaponType::Armor => WeaponRecipe {
                weapon_type: self,
                workshop_type: BuildingType::ArmourersWorkshop,
                wood_required: 0,
                iron_required: 1,
                make_time_ticks: 625,
                sell_gold: 30,
            },
        }
    }

    pub open spec fn all_spec() -> Seq<WeaponType> {
        seq![
            WeaponType::Bow,
            WeaponType::Crossbow,
            WeaponType::Spear,
            WeaponType::Pike,
            WeaponType::Sword,
            WeaponType::Mace,
            WeaponType::Armor,
        ]
    }

    pub fn display_name(self) -> (r: &'static str)
        ensures
            r@ == self.name_text(),
    {
        match self {
            WeaponType::Bow => "Bow",
            WeaponType::Crossbow => "Crossbow",
            WeaponType::Spear => "Spear",
            WeaponType::Pike => "Pike",
            WeaponType::Sword => "Sword",
            WeaponType::Mace => "Mace",
            WeaponType::Armor => "Armor",
        }
    }

    /// The lower-case identifier used by tools.
    pub fn id(self) -> (r: &'static str)
        ensures
            r@ == self.id_text(),
    {
        match self {
            WeaponType::Bow => "bow",
            WeaponType::Crossbow => "crossbow",
            WeaponType::Spear => "spear",
            WeaponType::Pike => "pike",
            WeaponType::Sword => "sword",
            WeaponType::Mace => "mace",
            WeaponType::Armor => "armor",
        }
    }

    pub fn all() -> (r: [WeaponType; 7])
        ensures
            r@ == WeaponType::all_spec(),
    {
        let r = [
            WeaponType::Bow,
            WeaponType::Crossbow,
            WeaponType::Spear,
            WeaponType::Pike,
            WeaponType::Sword,
            WeaponType::Mace,
            WeaponType::Armor,
        ];
        assert(r@ =~= WeaponType::all_spec());
        r
    }

    pub fn recipe(self) -> (r: WeaponRecipe)
        ensures
            r == self.recipe_spec(),
    {
        match self {
            WeaponType::Bow => WeaponRecipe {
                weapon_type: self,
                workshop_type: BuildingType::FletchersWorkshop,
                wood_required: 2,
                iron_required: 0,
                make_time_ticks: 638,
                sell_gold: 15,
            },
            WeaponType::Crossbow => WeaponRecipe {
                weapon_type: self,
                workshop_type: BuildingType::FletchersWorkshop,
                wood_required: 3,
                iron_required: 0,
                make_time_ticks: 565,
                sell_gold: 30,
            },
            WeaponType::Spear => WeaponRecipe {
                weapon_type: self,
                workshop_type: BuildingType::PoleturnersWorkshop,
                wood_required: 1,
                iron_required: 0,
                make_time_ticks: 332,
                sell_gold: 10,
            },
            WeaponType::Pike => WeaponRecipe {
                weapon_type: self,
                workshop_type: BuildingType::PoleturnersWorkshop,
                wood_required: 2,
                iron_required: 0,
                make_time_ticks: 872,
                sell_gold: 18,
            },
            WeaponType::Sword => WeaponRecipe {
                weapon_type: self,
                workshop_type: BuildingType::BlacksmithsWorkshop,
                wood_required: 0,
                iron_required: 1,
                make_time_ticks: 1090,
                sell_gold: 30,
            },
            WeaponType::Mace => WeaponRecipe {
                weapon_type: self,
                workshop_type: BuildingType::BlacksmithsWorkshop,
                wood_required: 0,
                iron_required: 1,
                make_time_ticks: 910,
                sell_gold: 30,
            },
            WeaponType::Armor => WeaponRecipe {
                weapon_type: self,
                workshop_type: BuildingType::ArmourersWorkshop,
                wood_required: 0,
                iron_required: 1,
                make_time_ticks: 625,
                sell_gold: 30,
            },
        }
    }
}

impl WeaponRecipe {
    pub fn total_required_units(self) -> (r: u32)
        requires
            self.wood_required + self.iron_required <= u32::MAX,
        ensures
            r == self.wood_required + self.iron_required,
    {
        self.wood_required + self.iron_required
    }
}

/// Every recipe is made in a weapon workshop from at most three units.
pub proof fn lemma_recipe_shape(w: WeaponType)
    ensures
        w.recipe_spec().workshop_type.is_weapon_workshop(),
        w.recipe_spec().weapon_type == w,
        w.recipe_spec().wood_required <= 3,
        w.recipe_spec().iron_required <= 1,
        w.recipe_spec().wood_required == 0 || w.recipe_spec().iron_required == 0,
        w.recipe_spec().wood_required + w.recipe_spec().iron_required >= 1,
{
}

/// Calculator settings that affect production.
#[derive(Debug, Clone, Copy, PartialEq, Eq, Structural)]
pub struct SimulationSettings {
    pub game_speed_ticks_per_second: u32,
    pub fear_factor: i32,
    pub optimized_fletcher_routing: bool,
    pub fletchers_weapon: WeaponType,
    pub poleturners_weapon: WeaponType,
    pub blacksmiths_weapon: WeaponType,
    pub buy_wood: bool,
    pub buy_iron: bool,
    pub buy_wheat: bool,
    pub buy_flour: bool,
}

impl SimulationSettings {
    pub open spec fn default_spec() -> SimulationSettings {
        SimulationSettings {
            game_speed_ticks_per_second: 50,
            fear_factor: 0,
            optimized_fletcher_routing: false,
            fletchers_weapon: WeaponType::Bow,
            poleturners_weapon: WeaponType::Spear,
            blacksmiths_weapon: WeaponType::Sword,
            buy_wood: true,
            buy_iron: true,
            buy_wheat: false,
            buy_flour: false,
        }
    }

    /// The weapon a workshop of this type produces with these settings.
    pub open spec fn selected_weapon_spec(self, t: BuildingType) -> Option<WeaponType> {
        match t {
            BuildingType::FletchersWorkshop => Some(self.fletchers_weapon),
            BuildingType::PoleturnersWorkshop => Some(self.poleturners_weapon),
            BuildingType::BlacksmithsWorkshop => Some(self.blacksmiths_weapon),
            BuildingType::ArmourersWorkshop => Some(WeaponType::Armor),
            _ => None,
        }
    }

    /// Gold spent per cycle on buying the recipe's inputs.
    pub open spec fn buy_gold_spec(self, recipe: WeaponRecipe) -> int {
        (if self.buy_wood { recipe.wood_required * WOOD_BUY_GOLD } else { 0 }) + (if self.buy_iron {
            recipe.iron_required * IRON_BUY_GOLD
        } else {
            0
        })
    }

    pub fn selected_weapon_for(self, building_type: BuildingType) -> (r: Option<WeaponType>)
        ensures
            r == self.selected_weapon_spec(building_type),
    {
        match building_type {
            BuildingType::FletchersWorkshop => Some(self.fletchers_weapon),
            BuildingType::PoleturnersWorkshop => Some(self.poleturners_weapon),
            BuildingType::BlacksmithsWorkshop => Some(self.blacksmiths_weapon),
            BuildingType::ArmourersWorkshop => Some(WeaponType::Armor),
            _ => None,
        }
    }

    /// Gold spent per cycle buying the inputs of `recipe` that buying is
    /// enabled for.
    pub fn resource_buy_gold_per_cycle(self, recipe: WeaponRecipe) -> (r: u64)
        ensures
            r == self.buy_gold_spec(recipe),
    {
        let wood_price: u64 = WOOD_BUY_GOLD as u64;
        let iron_price: u64 = IRON_BUY_GOLD as u64;
        assert(wood_price == 4 && iron_price == 45);
        let wood: u64 = if self.buy_wood { (recipe.wood_required as u64) * wood_price } else { 0 };
        let iron: u64 = if self.buy_iron { (recipe.iron_required as u64) * iron_price } else { 0 };
        wood + iron
    }

    /// Sum of the workshop fear ring for these settings: the goods ten
    /// cycles of a weapon workshop produce.
    pub fn fear_ring_output_total(self) -> (r: u32)
        ensures
            r == ring_total(fear_ring_spec(self.fear_factor as int)),
    {
        let ring = workshop_fear_output_ring(self.fear_factor);
        let mut total: u32 = 0;
        let mut i: usize = 0;
        while i < WORKSHOP_FEAR_RING_LEN
            invariant
                ring@ == fear_ring_spec(self.fear_factor as int),
                i <= WORKSHOP_FEAR_RING_LEN,
                total == ring_total(ring@.subrange(0, i as int)),
                total <= 2 * i,
            decreases WORKSHOP_FEAR_RING_LEN - i,
        {
            assert(ring@.subrange(0, i + 1).drop_last() =~= ring@.subrange(0, i as int));
            total = total + ring[i];
            i = i + 1;
        }
        assert(ring@.subrange(0, 10) =~= ring@);
        total
    }
}

impl Default for SimulationSettings {
    fn default() -> (r: SimulationSettings)
        ensures
            r == SimulationSettings::default_spec(),
    {
        SimulationSettings {
            game_speed_ticks_per_second: 50,
            fear_factor: 0,
            optimized_fletcher_routing: false,
            fletchers_weapon: WeaponType::Bow,
            poleturners_weapon: WeaponType::Spear,
            blacksmiths_weapon: WeaponType::Sword,
            buy_wood: true,
            buy_iron: true,
            buy_wheat: false,
            buy_flour: false,
        }
    }
}

pub open spec fn clamp_fear(f: int) -> int {
    if f < MIN_FEAR_FACTOR {
        MIN_FEAR_FACTOR as int
    } else if f > MAX_FEAR_FACTOR {
        MAX_FEAR_FACTOR as int
    } else {
        f
    }
}

/// The fear factor limited to the supported range `-5..=0`.
pub fn clamped_fear_factor(fear_factor: i32) -> (r: i32)
    ensures
        r == clamp_fear(fear_factor as int),
{
    if fear_factor < MIN_FEAR_FACTOR {
        MIN_FEAR_FACTOR
    } else if fear_factor > MAX_FEAR_FACTOR {
        MAX_FEAR_FACTOR
    } else {
        fear_factor
    }
}

/// Output of each of ten workshop cycles: at fear factor 0 the ring
/// alternates one and two goods; each step towards -5 turns the next
/// single-output cycle, from the front, into a double one.
pub open spec fn fear_ring_spec(fear_factor: int) -> Seq<u32> {
    let improved = -clamp_fear(fear_factor);
    Seq::new(10, |i: int| if i % 2 == 1 || i / 2 < improved { 2u32 } else { 1u32 })
}

pub open spec fn ring_total(s: Seq<u32>) -> int
    decreases s.len(),
{
    if s.len() == 0 {
        0
    } else {
        ring_total(s.drop_last()) + s[s.len() - 1]
    }
}

/// Ten workshop cycles make fifteen goods at fear factor 0, and each step
/// of fear towards -5 adds one good; fear beyond the range adds nothing.
pub proof fn lemma_fear_ring_total(fear_factor: int)
    ensures
        ring_total(fear_ring_spec(fear_factor)) == 15 - clamp_fear(fear_factor),
{
    let s = fear_ring_spec(fear_factor);
    lemma_fear_ring_prefix(fear_factor, 10);
    assert(s.subrange(0, 10) =~= s);
}

proof fn lemma_fear_ring_prefix(fear_factor: int, k: int)
    requires
        0 <= k <= 10,
    ensures
        ring_total(fear_ring_spec(fear_factor).subrange(0, k)) == k + (k / 2) + (if (k + 1) / 2 < -clamp_fear(
            fear_factor,
        ) {
            (k + 1) / 2
        } else {
            -clamp_fear(fear_factor)
        }),
    decreases k,
{
    let s = fear_ring_spec(fear_factor);
    if k > 0 {
        lemma_fear_ring_prefix(fear_factor, k - 1);
        assert(s.subrange(0, k).drop_last() =~= s.subrange(0, k - 1));
    }
}

/// Ten-cycle workshop output ring for a fear factor.
pub fn workshop_fear_output_ring(fear_factor: i32) -> (r: [u32; 10])
    ensures
        r@ == fear_ring_spec(fear_factor as int),
{
    let mut ring: [u32; 10] = [1, 2, 1, 2, 1, 2, 1, 2, 1, 2];
    let improved = -clamped_fear_factor(fear_factor);
    let mut changed: i32 = 0;
    let mut i: usize = 0;
    while i < WORKSHOP_FEAR_RING_LEN
        invariant
            0 <= improved <= 5,
            improved == -clamp_fear(fear_factor as int),
            i <= 10,
            changed == (if (i as int + 1) / 2 < improved { (i as int + 1) / 2 } else { improved as int }),
            forall|j: int|
                0 <= j < i ==> ring@[j] == (if j % 2 == 1 || j / 2 < improved { 2u32 } else { 1u32 }),
            forall|j: int| i <= j < 10 ==> ring@[j] == (if j % 2 == 1 { 2u32 } else { 1u32 }),
        decreases WORKSHOP_FEAR_RING_LEN - i,
    {
        if ring[i] == 1 && changed < improved {
            ring[i] = 2;
            changed = changed + 1;
        } else if ring[i] == 1 {
            changed = changed;
        }
        i = i + 1;
    }
    assert(ring@ =~= fear_ring_spec(fear_factor as int));
    ring
}

/// Ticks a worker of a building of type `t` needs for `distance_cells`
/// cells: `8 x (slowdown + 1)` per cell, slowdown zero for non-workshops.
pub open spec fn travel_ticks_spec(t: BuildingType, distance_cells: u32) -> int {
    distance_cells * (TICKS_PER_CELL_FACTOR * ((if t.is_weapon_workshop() { WORKSHOP_SLOWDOWN_BASE } else { 0u32 }) + 1))
}

/// Walking time grows with the distance and adds up over consecutive
/// stretches, and a weapon workshop's worker, slowed by what he carries,
/// never walks faster than another worker and is strictly slower over any
/// distance at all.
pub proof fn lemma_walking_time(t: BuildingType, other: BuildingType, d1: u32, d2: u32)
    requires
        d1 + d2 <= u32::MAX,
    ensures
        travel_ticks_spec(t, d1) <= travel_ticks_spec(t, (d1 + d2) as u32),
        travel_ticks_spec(t, (d1 + d2) as u32) == travel_ticks_spec(t, d1) + travel_ticks_spec(t, d2),
        travel_ticks_spec(t, 0) == 0,
        t.is_weapon_workshop() && !other.is_weapon_workshop() && d1 > 0 ==> travel_ticks_spec(t, d1) > travel_ticks_spec(
            other,
            d1,
        ),
{
    let f = TICKS_PER_CELL_FACTOR * ((if t.is_weapon_workshop() { WORKSHOP_SLOWDOWN_BASE } else { 0u32 }) + 1);
    let g = TICKS_PER_CELL_FACTOR * ((if other.is_weapon_workshop() { WORKSHOP_SLOWDOWN_BASE } else { 0u32 }) + 1);
    assert(f > 0);
    assert((d1 + d2) * f == d1 * f + d2 * f) by (nonlinear_arith);
    assert(d1 * f <= (d1 + d2) * f) by (nonlinear_arith)
        requires
            f > 0,
            d2 >= 0,
    ;
    if t.is_weapon_workshop() && !other.is_weapon_workshop() && d1 > 0 {
        assert(f > g);
        assert(d1 * f > d1 * g) by (nonlinear_arith)
            requires
                f > g,
                d1 > 0,
        ;
    }
}

pub fn travel_ticks_for_distance(building_type: BuildingType, distance_cells: u32) -> (r: u64)
    ensures
        r == travel_ticks_spec(building_type, distance_cells),
{
    let slowdown_base = match building_type.worker_slowdown_base() {
        Some(v) => v,
        None => 0,
    };
    let per_cell: u64 = TICKS_PER_CELL_FACTOR * (slowdown_base as u64 + 1);
    assert(per_cell <= 24);
    assert((distance_cells as int) * (per_cell as int) <= 24 * 4294967295) by (nonlinear_arith)
        requires
            per_cell <= 24,
            distance_cells <= 4294967295,
    ;
    distance_cells as u64 * per_cell
}

/// How often and how far a worker walks one directed route per cycle.
#[derive(Debug, Clone, Copy, PartialEq, Eq, Structural)]
pub struct ProductionRouteUsage {
    pub start_building_id: u32,
    pub finish_building_id: u32,
    pub trips: u32,
    pub distance_cells_per_trip: u32,
    pub total_distance_cells: u64,
    pub total_ticks: u64,
}

/// Why a production cycle could not be calculated.
#[derive(Debug, Clone, Copy, PartialEq, Eq, Structural)]
pub enum ProductionCycleError {
    WorkshopNotFound { workshop_id: u32 },
    ArmouryNotFound { armoury_id: u32 },
    ExpectedWorkshop { workshop_id: u32, actual_type: BuildingType, expected_type: BuildingType },
    ExpectedArmoury { armoury_id: u32, actual_type: BuildingType },
    MissingStockpile { resource: StockpileResource },
    MissingDistance { start_building_id: u32, finish_building_id: u32 },
    UnreachableDistance { start_building_id: u32, finish_building_id: u32 },
}

/// The routes a worker walks in one production cycle and its duration.
#[derive(Debug, Clone, PartialEq, Eq)]
pub struct ProductionCycle {
    pub recipe: WeaponRecipe,
    pub workshop_id: u32,
    pub armoury_id: u32,
    pub route_usage: Vec<ProductionRouteUsage>,
    pub travel_distance_cells: u64,
    pub travel_ticks: u64,
    pub make_ticks: u64,
    pub total_ticks: u64,
}

/// Whether `x` is the route from `s` to `f`.
pub open spec fn is_route(x: ProductionRouteUsage, s: u32, f: u32) -> bool {
    x.start_building_id == s && x.finish_building_id == f
}

/// A route walked `trips` more times.
pub open spec fn merged_route(x: ProductionRouteUsage, trips: u32, d: u32, t: BuildingType) -> ProductionRouteUsage {
    ProductionRouteUsage {
        start_building_id: x.start_building_id,
        finish_building_id: x.finish_building_id,
        trips: (x.trips + trips) as u32,
        distance_cells_per_trip: x.distance_cells_per_trip,
        total_distance_cells: (x.total_distance_cells + d * trips) as u64,
        total_ticks: (x.total_ticks + travel_ticks_spec(t, d) * trips) as u64,
    }
}

/// A route of `d` cells walked `trips` times.
pub open spec fn new_route(s: u32, f: u32, trips: u32, d: u32, t: BuildingType) -> ProductionRouteUsage {
    ProductionRouteUsage {
        start_building_id: s,
        finish_building_id: f,
        trips,
        distance_cells_per_trip: d,
        total_distance_cells: (d * trips) as u64,
        total_ticks: (travel_ticks_spec(t, d) * trips) as u64,
    }
}

/// Adds `trips` walks of the route from `s` to `f` to the list: to the
/// route already listed, or as a new route at the end.
pub open spec fn merge_usage(u: Seq<ProductionRouteUsage>, s: u32, f: u32, trips: u32, d: u32, t: BuildingType) -> Seq<
    ProductionRouteUsage,
> {
    if exists|i: int| 0 <= i < u.len() && is_route(#[trigger] u[i], s, f) {
        u.map_values(
            |x: ProductionRouteUsage|
                if is_route(x, s, f) {
                    merged_route(x, trips, d, t)
                } else {
                    x
                },
        )
    } else {
        u.push(new_route(s, f, trips, d, t))
    }
}

/// One walk of a cycle: looked up among the worker routes and added to
/// the list; a failure so far is kept.
pub open spec fn push_leg(
    r: Result<Seq<ProductionRouteUsage>, ProductionCycleError>,
    s: u32,
    f: u32,
    trips: u32,
    wt: Map<DistanceKey, BuildingDistance>,
    t: BuildingType,
) -> Result<Seq<ProductionRouteUsage>, ProductionCycleError> {
    match r {
        Err(e) => Err(e),
        Ok(u) => if trips == 0 {
            Ok(u)
        } else if !wt.contains_key(pair_key(s, f)) {
            Err(ProductionCycleError::MissingDistance { start_building_id: s, finish_building_id: f })
        } else {
            match wt[pair_key(s, f)].distance_cells {
                None => Err(ProductionCycleError::UnreachableDistance { start_building_id: s, finish_building_id: f }),
                Some(d) => Ok(merge_usage(u, s, f, trips, d, t)),
            }
        },
    }
}

/// The first building with identifier `id`.
pub open spec fn first_building(bs: Seq<PlacementView>, id: u32) -> Option<PlacementView>
    decreases bs.len(),
{
    if bs.len() == 0 {
        None
    } else if bs[0].id == id {
        Some(bs[0])
    } else {
        first_building(bs.drop_first(), id)
    }
}

/// The identifier of the first stockpile designated for `resource`.
pub open spec fn first_stockpile(bs: Seq<PlacementView>, resource: StockpileResource) -> Option<u32>
    decreases bs.len(),
{
    if bs.len() == 0 {
        None
    } else if bs[0].stockpile_resource == Some(resource) {
        Some(bs[0].id)
    } else {
        first_stockpile(bs.drop_first(), resource)
    }
}

/// The walks that bring `required` units of a resource from its stockpile
/// `stock` to workshop `w`: the armoury worker goes to the stockpile, or,
/// for a fletcher without optimized routing, back to the workshop first.
pub open spec fn phase_result(
    r: Result<Seq<ProductionRouteUsage>, ProductionCycleError>,
    required: u32,
    resource: StockpileResource,
    bs: Seq<PlacementView>,
    wt: Map<DistanceKey, BuildingDistance>,
    t: BuildingType,
    w: u32,
    a: u32,
    optimized: bool,
) -> Result<Seq<ProductionRouteUsage>, ProductionCycleError> {
    match r {
        Err(e) => Err(e),
        Ok(u) => if required == 0 {
            Ok(u)
        } else {
            match first_stockpile(bs, resource) {
                None => Err(ProductionCycleError::MissingStockpile { resource }),
                Some(s) => if t == BuildingType::FletchersWorkshop && !optimized {
                    push_leg(push_leg(push_leg(Ok(u), a, w, 1, wt, t), w, s, required, wt, t), s, w, required, wt, t)
                } else {
                    push_leg(
                        push_leg(push_leg(Ok(u), a, s, 1, wt, t), w, s, (required - 1) as u32, wt, t),
                        s,
                        w,
                        required,
                        wt,
                        t,
                    )
                },
            }
        },
    }
}

/// The routes of one cycle of `recipe` between workshop `w` and armoury
/// `a`: the wood walks, the iron walks, and the delivery to the armoury.
pub open spec fn cycle_routes(
    bs: Seq<PlacementView>,
    wt: Map<DistanceKey, BuildingDistance>,
    recipe: WeaponRecipe,
    w: u32,
    a: u32,
    optimized: bool,
) -> Result<Seq<ProductionRouteUsage>, ProductionCycleError> {
    let t = recipe.workshop_type;
    let wood = phase_result(Ok(Seq::empty()), recipe.wood_required, StockpileResource::Wood, bs, wt, t, w, a, optimized);
    let iron = phase_result(wood, recipe.iron_required, StockpileResource::Iron, bs, wt, t, w, a, optimized);
    push_leg(iron, w, a, 1, wt, t)
}

/// The routes of a production cycle of `weapon` between workshop `w` and
/// armoury `a`, or why there is none.
pub open spec fn production_routes(
    bs: Seq<PlacementView>,
    wt: Map<DistanceKey, BuildingDistance>,
    weapon: WeaponType,
    w: u32,
    a: u32,
    optimized: bool,
) -> Result<Seq<ProductionRouteUsage>, ProductionCycleError> {
    let recipe = weapon.recipe_spec();
    match first_building(bs, w) {
        None => Err(ProductionCycleError::WorkshopNotFound { workshop_id: w }),
        Some(wb) => match first_building(bs, a) {
            None => Err(ProductionCycleError::ArmouryNotFound { armoury_id: a }),
            Some(ab) => if wb.building_type != recipe.workshop_type {
                Err(
                    ProductionCycleError::ExpectedWorkshop {
                        workshop_id: w,
                        actual_type: wb.building_type,
                        expected_type: recipe.workshop_type,
                    },
                )
            } else if ab.building_type != BuildingType::Armoury {
                Err(ProductionCycleError::ExpectedArmoury { armoury_id: a, actual_type: ab.building_type })
            } else {
                cycle_routes(bs, wt, recipe, w, a, optimized)
            },
        },
    }
}

/// Adding a walk keeps the first route where it was; to an empty list it
/// adds the walk as the first route.
proof fn lemma_leg_keeps_first(
    r: Result<Seq<ProductionRouteUsage>, ProductionCycleError>,
    s: u32,
    f: u32,
    trips: u32,
    wt: Map<DistanceKey, BuildingDistance>,
    t: BuildingType,
)
    ensures
        push_leg(r, s, f, trips, wt, t) is Ok ==> r is Ok,
        r matches Ok(u) ==> (push_leg(r, s, f, trips, wt, t) matches Ok(v) ==> {
            &&& v.len() >= u.len()
            &&& u.len() > 0 ==> v[0].start_building_id == u[0].start_building_id && v[0].finish_building_id
                == u[0].finish_building_id
            &&& u.len() == 0 && trips > 0 ==> v.len() == 1 && v[0].start_building_id == s && v[0].finish_building_id == f
        }),
{
    if let Ok(u) = r {
        if let Ok(v) = push_leg(r, s, f, trips, wt, t) {
            if trips > 0 {
                let d = wt[pair_key(s, f)].distance_cells->0;
                if exists|i: int| 0 <= i < u.len() && is_route(#[trigger] u[i], s, f) {
                    assert(v.len() == u.len());
                    if u.len() > 0 {
                        assert(v[0] == (if is_route(u[0], s, f) {
                            merged_route(u[0], trips, d, t)
                        } else {
                            u[0]
                        }));
                    }
                } else {
                    assert(v == u.push(new_route(s, f, trips, d, t)));
                    if u.len() > 0 {
                        assert(v[0] == u[0]);
                    }
                }
            }
        }
    }
}

/// The walks for a resource keep the first route of a nonempty list; on an
/// empty list with units to fetch, the first walk starts at the armoury and
/// goes to the workshop for a fletcher without optimized routing, and to
/// the resource's stockpile otherwise.
proof fn lemma_phase_first(
    r: Result<Seq<ProductionRouteUsage>, ProductionCycleError>,
    required: u32,
    resource: StockpileResource,
    bs: Seq<PlacementView>,
    wt: Map<DistanceKey, BuildingDistance>,
    t: BuildingType,
    w: u32,
    a: u32,
    optimized: bool,
)
    ensures
        phase_result(r, required, resource, bs, wt, t, w, a, optimized) is Ok ==> r is Ok,
        r matches Ok(u) ==> (phase_result(r, required, resource, bs, wt, t, w, a, optimized) matches Ok(v) ==> {
            &&& v.len() >= u.len()
            &&& u.len() > 0 ==> v[0].start_building_id == u[0].start_building_id && v[0].finish_building_id
                == u[0].finish_building_id
            &&& u.len() == 0 && required > 0 ==> {
                &&& v.len() > 0
                &&& v[0].start_building_id == a
                &&& t == BuildingType::FletchersWorkshop && !optimized ==> v[0].finish_building_id == w
                &&& !(t == BuildingType::FletchersWorkshop && !optimized) ==> first_stockpile(bs, resource) == Some(
                    v[0].finish_building_id,
                )
            }
        }),
{
    if let Ok(u) = r {
        if required > 0 {
            if let Some(s) = first_stockpile(bs, resource) {
                if t == BuildingType::FletchersWorkshop && !optimized {
                    let r1 = push_leg(Ok(u), a, w, 1, wt, t);
                    let r2 = push_leg(r1, w, s, required, wt, t);
                    lemma_leg_keeps_first(Ok(u), a, w, 1, wt, t);
                    lemma_leg_keeps_first(r1, w, s, required, wt, t);
                    lemma_leg_keeps_first(r2, s, w, required, wt, t);
                } else {
                    let r1 = push_leg(Ok(u), a, s, 1, wt, t);
                    let r2 = push_leg(r1, w, s, (required - 1) as u32, wt, t);
                    lemma_leg_keeps_first(Ok(u), a, s, 1, wt, t);
                    lemma_leg_keeps_first(r1, w, s, (required - 1) as u32, wt, t);
                    lemma_leg_keeps_first(r2, s, w, required, wt, t);
                }
            }
        }
    }
}

/// Each route walks at most the total.
pub proof fn lemma_route_le_sum(u: Seq<ProductionRouteUsage>, i: int)
    requires
        0 <= i < u.len(),
    ensures
        u[i].trips <= trips_sum(u),
{
    let p = u.subrange(0, i + 1);
    assert(p.drop_last() =~= u.subrange(0, i));
    assert(p.last() == u[i]);
    lemma_sums_prefix(u.subrange(0, i), 0);
    lemma_sums_prefix(u, i + 1);
}

/// No route is listed twice.
pub open spec fn routes_distinct(u: Seq<ProductionRouteUsage>) -> bool {
    forall|i: int, j: int|
        0 <= i < u.len() && 0 <= j < u.len() && i != j ==> !is_route(
            #[trigger] u[i],
            (#[trigger] u[j]).start_building_id,
            u[j].finish_building_id,
        )
}

/// Adding `trips` walks adds exactly that many walks and keeps every route
/// listed once.
proof fn lemma_leg_adds_trips(
    u: Seq<ProductionRouteUsage>,
    s: u32,
    f: u32,
    trips: u32,
    wt: Map<DistanceKey, BuildingDistance>,
    t: BuildingType,
)
    requires
        routes_distinct(u),
        trips_sum(u) + trips <= u32::MAX,
    ensures
        push_leg(Ok(u), s, f, trips, wt, t) matches Ok(v) ==> routes_distinct(v) && trips_sum(v) == trips_sum(u) + trips,
{
    if let Ok(v) = push_leg(Ok(u), s, f, trips, wt, t) {
        if trips > 0 {
            let d = wt[pair_key(s, f)].distance_cells->0;
            if exists|i: int| 0 <= i < u.len() && is_route(#[trigger] u[i], s, f) {
                let i = choose|i: int| 0 <= i < u.len() && is_route(#[trigger] u[i], s, f);
                lemma_route_le_sum(u, i);
                let x = merged_route(u[i], trips, d, t);
                assert(v =~= u.update(i, x)) by {
                    assert forall|j: int| 0 <= j < u.len() implies #[trigger] v[j] == u.update(i, x)[j] by {
                        if j != i {
                            assert(!is_route(u[j], u[i].start_building_id, u[i].finish_building_id));
                        }
                    }
                }
                lemma_sums_update(u, i, x);
                assert forall|a: int, b: int|
                    0 <= a < v.len() && 0 <= b < v.len() && a != b implies !is_route(
                    #[trigger] v[a],
                    (#[trigger] v[b]).start_building_id,
                    v[b].finish_building_id,
                ) by {
                    assert(!is_route(u[a], u[b].start_building_id, u[b].finish_building_id));
                }
            } else {
                let x = new_route(s, f, trips, d, t);
                assert(v == u.push(x));
                assert(v.drop_last() =~= u);
                assert forall|a: int, b: int|
                    0 <= a < v.len() && 0 <= b < v.len() && a != b implies !is_route(
                    #[trigger] v[a],
                    (#[trigger] v[b]).start_building_id,
                    v[b].finish_building_id,
                ) by {
                    if a < u.len() && b < u.len() {
                        assert(!is_route(u[a], u[b].start_building_id, u[b].finish_building_id));
                    } else if a < u.len() {
                        assert(!is_route(u[a], s, f));
                    } else {
                        assert(!is_route(u[b], s, f));
                    }
                }
            }
        }
    }
}

/// The walks for `required` units of a resource: two per unit, one each
/// way between the stockpile and the workshop, the first fetch starting at
/// the armoury, plus one more for a fletcher without optimized routing.
proof fn lemma_phase_trips(
    u: Seq<ProductionRouteUsage>,
    required: u32,
    resource: StockpileResource,
    bs: Seq<PlacementView>,
    wt: Map<DistanceKey, BuildingDistance>,
    t: BuildingType,
    w: u32,
    a: u32,
    optimized: bool,
)
    requires
        routes_distinct(u),
        trips_sum(u) + 2 * required + 1 <= u32::MAX,
    ensures
        phase_result(Ok(u), required, resource, bs, wt, t, w, a, optimized) matches Ok(v) ==> {
            &&& routes_distinct(v)
            &&& trips_sum(v) == trips_sum(u) + 2 * required + (if required > 0 && t == BuildingType::FletchersWorkshop
                && !optimized {
                1int
            } else {
                0int
            })
        },
{
    if required > 0 {
        if let Some(s) = first_stockpile(bs, resource) {
            if t == BuildingType::FletchersWorkshop && !optimized {
                let r1 = push_leg(Ok(u), a, w, 1, wt, t);
                lemma_leg_adds_trips(u, a, w, 1, wt, t);
                if let Ok(u1) = r1 {
                    let r2 = push_leg(r1, w, s, required, wt, t);
                    lemma_leg_adds_trips(u1, w, s, required, wt, t);
                    if let Ok(u2) = r2 {
                        lemma_leg_adds_trips(u2, s, w, required, wt, t);
                    }
                }
            } else {
                let r1 = push_leg(Ok(u), a, s, 1, wt, t);
                lemma_leg_adds_trips(u, a, s, 1, wt, t);
                if let Ok(u1) = r1 {
                    let r2 = push_leg(r1, w, s, (required - 1) as u32, wt, t);
                    lemma_leg_adds_trips(u1, w, s, (required - 1) as u32, wt, t);
                    if let Ok(u2) = r2 {
                        lemma_leg_adds_trips(u2, s, w, required, wt, t);
                    }
                }
            }
        }
    }
}

/// How often a production cycle's worker walks: once out from the
/// armoury, twice for every resource unit (to the stockpile and back to the
/// workshop, the first fetch starting at the armoury), once back to the
/// armoury with the weapon, and once more for a fletcher without optimized
/// routing, who first returns to the workshop; every route is listed once.
pub proof fn lemma_cycle_walk_count(
    bs: Seq<PlacementView>,
    wt: Map<DistanceKey, BuildingDistance>,
    weapon: WeaponType,
    w: u32,
    a: u32,
    optimized: bool,
)
    ensures
        production_routes(bs, wt, weapon, w, a, optimized) matches Ok(u) ==> {
            let recipe = weapon.recipe_spec();
            let detour = recipe.workshop_type == BuildingType::FletchersWorkshop && !optimized;
            &&& routes_distinct(u)
            &&& trips_sum(u) == 2 * (recipe.wood_required + recipe.iron_required) + 1 + (if detour { 1int } else { 0int })
        },
{
    lemma_recipe_shape(weapon);
    let recipe = weapon.recipe_spec();
    let t = recipe.workshop_type;
    if let Ok(u) = production_routes(bs, wt, weapon, w, a, optimized) {
        let e = Seq::<ProductionRouteUsage>::empty();
        assert(trips_sum(e) == 0);
        let wood = phase_result(Ok(e), recipe.wood_required, StockpileResource::Wood, bs, wt, t, w, a, optimized);
        lemma_phase_trips(e, recipe.wood_required, StockpileResource::Wood, bs, wt, t, w, a, optimized);
        lemma_phase_first(Ok(e), recipe.wood_required, StockpileResource::Wood, bs, wt, t, w, a, optimized);
        let iron = phase_result(wood, recipe.iron_required, StockpileResource::Iron, bs, wt, t, w, a, optimized);
        lemma_phase_first(wood, recipe.iron_required, StockpileResource::Iron, bs, wt, t, w, a, optimized);
        lemma_leg_keeps_first(iron, w, a, 1, wt, t);
        if let Ok(u1) = wood {
            lemma_phase_trips(u1, recipe.iron_required, StockpileResource::Iron, bs, wt, t, w, a, optimized);
            if let Ok(u2) = iron {
                lemma_leg_adds_trips(u2, w, a, 1, wt, t);
            }
        }
    }
}

/// A workshop's worker routes lead to the stockpile of the resource its
/// weapons are made of: every weapon needs units of exactly one resource,
/// wood or iron, and that is the resource its workshop fetches.
pub proof fn lemma_workshop_fetches_what_weapons_need(weapon: WeaponType)
    ensures
        weapon.recipe_spec().wood_required > 0 ==> workshop_resource(weapon.recipe_spec().workshop_type) == Some(
            StockpileResource::Wood,
        ) && weapon.recipe_spec().iron_required == 0,
        weapon.recipe_spec().iron_required > 0 ==> workshop_resource(weapon.recipe_spec().workshop_type) == Some(
            StockpileResource::Iron,
        ) && weapon.recipe_spec().wood_required == 0,
{
    lemma_recipe_shape(weapon);
}

/// Every walk of a production cycle is a worker route: from the armoury to
/// the resource's stockpile or, on a fletcher's detour, to the workshop;
/// between the workshop and that stockpile both ways; and from the workshop
/// back to the armoury.
pub proof fn lemma_cycle_walks_worker_routes(
    weapon: WeaponType,
    wb: PlacementView,
    ab: PlacementView,
    stock: PlacementView,
)
    requires
        wb.building_type == weapon.recipe_spec().workshop_type,
        ab.building_type == BuildingType::Armoury,
        stock.stockpile_resource == workshop_resource(wb.building_type),
    ensures
        worker_route(ab, stock),
        worker_route(ab, wb),
        worker_route(wb, stock),
        worker_route(stock, wb),
        worker_route(wb, ab),
{
    lemma_recipe_shape(weapon);
}

/// Every production cycle starts at the armoury. Its first walk goes
/// straight to the stockpile of the resource the weapon needs (wood when it
/// needs wood, iron otherwise) for every workshop but a fletcher's without
/// optimized routing, whose worker first goes back to the workshop.
pub proof fn lemma_cycle_starts_at_armoury(
    bs: Seq<PlacementView>,
    wt: Map<DistanceKey, BuildingDistance>,
    weapon: WeaponType,
    w: u32,
    a: u32,
    optimized: bool,
)
    ensures
        production_routes(bs, wt, weapon, w, a, optimized) matches Ok(u) ==> {
            let fletcher_detour = weapon.recipe_spec().workshop_type == BuildingType::FletchersWorkshop && !optimized;
            let resource = if weapon.recipe_spec().wood_required > 0 {
                StockpileResource::Wood
            } else {
                StockpileResource::Iron
            };
            &&& u.len() > 0
            &&& u[0].start_building_id == a
            &&& fletcher_detour ==> u[0].finish_building_id == w
            &&& !fletcher_detour ==> first_stockpile(bs, resource) == Some(u[0].finish_building_id)
        },
{
    lemma_recipe_shape(weapon);
    let recipe = weapon.recipe_spec();
    let t = recipe.workshop_type;
    if let Ok(u) = production_routes(bs, wt, weapon, w, a, optimized) {
        let wood = phase_result(Ok(Seq::empty()), recipe.wood_required, StockpileResource::Wood, bs, wt, t, w, a, optimized);
        let iron = phase_result(wood, recipe.iron_required, StockpileResource::Iron, bs, wt, t, w, a, optimized);
        assert(push_leg(iron, w, a, 1, wt, t) == Ok::<Seq<ProductionRouteUsage>, ProductionCycleError>(u));
        lemma_leg_keeps_first(iron, w, a, 1, wt, t);
        lemma_phase_first(wood, recipe.iron_required, StockpileResource::Iron, bs, wt, t, w, a, optimized);
        lemma_phase_first(Ok(Seq::empty()), recipe.wood_required, StockpileResource::Wood, bs, wt, t, w, a, optimized);
        if recipe.wood_required == 0 {
            assert(wood == Ok::<Seq<ProductionRouteUsage>, ProductionCycleError>(Seq::empty()));
        }
    }
}

/// Total walks of a route list.
pub open spec fn trips_sum(u: Seq<ProductionRouteUsage>) -> int
    decreases u.len(),
{
    if u.len() == 0 {
        0
    } else {
        trips_sum(u.drop_last()) + u.last().trips
    }
}

/// Total cells walked.
pub open spec fn distance_sum(u: Seq<ProductionRouteUsage>) -> int
    decreases u.len(),
{
    if u.len() == 0 {
        0
    } else {
        distance_sum(u.drop_last()) + u.last().total_distance_cells
    }
}

/// Total walking ticks.
pub open spec fn ticks_sum(u: Seq<ProductionRouteUsage>) -> int
    decreases u.len(),
{
    if u.len() == 0 {
        0
    } else {
        ticks_sum(u.drop_last()) + u.last().total_ticks
    }
}

/// Route totals consistent with the per-trip distance, which the worker
/// routes record, and routes listed once.
pub open spec fn usage_ok(u: Seq<ProductionRouteUsage>, wt: Map<DistanceKey, BuildingDistance>, t: BuildingType) -> bool {
    &&& forall|i: int|
        0 <= i < u.len() ==> {
            &&& (#[trigger] u[i]).distance_cells_per_trip <= MAX_CELL_COUNT
            &&& u[i].total_distance_cells == u[i].distance_cells_per_trip * u[i].trips
            &&& u[i].total_ticks == travel_ticks_spec(t, u[i].distance_cells_per_trip) * u[i].trips
            &&& wt.contains_key(pair_key(u[i].start_building_id, u[i].finish_building_id))
            &&& wt[pair_key(u[i].start_building_id, u[i].finish_building_id)].distance_cells == Some(
                u[i].distance_cells_per_trip,
            )
        }
    &&& forall|i: int, j: int|
        0 <= i < u.len() && 0 <= j < u.len() && i != j ==> !is_route(
            #[trigger] u[i],
            (#[trigger] u[j]).start_building_id,
            u[j].finish_building_id,
        )
}

/// Sums after changing one route.
pub proof fn lemma_sums_update(u: Seq<ProductionRouteUsage>, i: int, x: ProductionRouteUsage)
    requires
        0 <= i < u.len(),
    ensures
        trips_sum(u.update(i, x)) == trips_sum(u) - u[i].trips + x.trips,
        distance_sum(u.update(i, x)) == distance_sum(u) - u[i].total_distance_cells + x.total_distance_cells,
        ticks_sum(u.update(i, x)) == ticks_sum(u) - u[i].total_ticks + x.total_ticks,
    decreases u.len(),
{
    let v = u.update(i, x);
    if i == u.len() - 1 {
        assert(v.drop_last() =~= u.drop_last());
    } else {
        assert(v.drop_last() =~= u.drop_last().update(i, x));
        lemma_sums_update(u.drop_last(), i, x);
    }
}

/// Every prefix of a route list walks at most the whole list.
pub proof fn lemma_sums_prefix(u: Seq<ProductionRouteUsage>, i: int)
    requires
        0 <= i <= u.len(),
    ensures
        trips_sum(u.subrange(0, i)) <= trips_sum(u),
        distance_sum(u.subrange(0, i)) <= distance_sum(u),
        ticks_sum(u.subrange(0, i)) <= ticks_sum(u),
        trips_sum(u) >= 0,
        distance_sum(u) >= 0,
        ticks_sum(u) >= 0,
    decreases u.len(),
{
    if u.len() > 0 {
        if i == u.len() {
            assert(u.subrange(0, i) =~= u);
        } else {
            assert(u.drop_last().subrange(0, i) =~= u.subrange(0, i));
        }
        lemma_sums_prefix(u.drop_last(), if i == u.len() { i - 1 } else { i });
    } else {
        assert(u.subrange(0, i) =~= u);
    }
}

/// The walking totals are at most a route's largest length times the walks.
pub proof fn lemma_sums_bounded(u: Seq<ProductionRouteUsage>, wt: Map<DistanceKey, BuildingDistance>, t: BuildingType)
    requires
        usage_ok(u, wt, t),
    ensures
        distance_sum(u) <= MAX_CELL_COUNT * trips_sum(u),
        ticks_sum(u) <= 24 * MAX_CELL_COUNT * trips_sum(u),
    decreases u.len(),
{
    if u.len() > 0 {
        let p = u.drop_last();
        assert(usage_ok(p, wt, t)) by {
            assert forall|i: int| 0 <= i < p.len() implies #[trigger] p[i] == u[i] by {}
        }
        lemma_sums_bounded(p, wt, t);
        let x = u.last();
        assert(u[u.len() - 1] == x);
        assert(x.distance_cells_per_trip * x.trips <= MAX_CELL_COUNT * x.trips) by (nonlinear_arith)
            requires
                x.distance_cells_per_trip <= MAX_CELL_COUNT,
        ;
        let factor: int = TICKS_PER_CELL_FACTOR * ((if t.is_weapon_workshop() { WORKSHOP_SLOWDOWN_BASE } else { 0u32 }) + 1);
        assert(0 <= factor <= 24);
        assert(x.distance_cells_per_trip * factor <= MAX_CELL_COUNT * 24) by (nonlinear_arith)
            requires
                x.distance_cells_per_trip <= MAX_CELL_COUNT,
                0 <= factor <= 24,
        ;
        assert(travel_ticks_spec(t, x.distance_cells_per_trip) <= 24 * MAX_CELL_COUNT);
        assert(travel_ticks_spec(t, x.distance_cells_per_trip) * x.trips <= 24 * MAX_CELL_COUNT * x.trips) by (nonlinear_arith)
            requires
                travel_ticks_spec(t, x.distance_cells_per_trip) <= 24 * MAX_CELL_COUNT,
                travel_ticks_spec(t, x.distance_cells_per_trip) >= 0,
        ;
    }
}

impl ProductionCycle {
    /// A cycle from its routes: the walking totals, the making time of the
    /// recipe, and their sum.
    pub fn from_route_usage(
        recipe: WeaponRecipe,
        workshop_id: u32,
        armoury_id: u32,
        route_usage: Vec<ProductionRouteUsage>,
    ) -> (r: ProductionCycle)
        requires
            distance_sum(route_usage@) <= u64::MAX,
            ticks_sum(route_usage@) + recipe.make_time_ticks <= u64::MAX,
        ensures
            r.recipe == recipe,
            r.workshop_id == workshop_id,
            r.armoury_id == armoury_id,
            r.route_usage@ == route_usage@,
            r.travel_distance_cells == distance_sum(route_usage@),
            r.travel_ticks == ticks_sum(route_usage@),
            r.make_ticks == recipe.make_time_ticks,
            r.total_ticks == ticks_sum(route_usage@) + recipe.make_time_ticks,
    {
        let ghost u = route_usage@;
        let mut travel_distance_cells: u64 = 0;
        let mut travel_ticks: u64 = 0;
        let mut i: usize = 0;
        while i < route_usage.len()
            invariant
                u == route_usage@,
                i <= u.len(),
                distance_sum(u) <= u64::MAX,
                ticks_sum(u) + recipe.make_time_ticks <= u64::MAX,
                travel_distance_cells == distance_sum(u.subrange(0, i as int)),
                travel_ticks == ticks_sum(u.subrange(0, i as int)),
            decreases u.len() - i,
        {
            proof {
                assert(u.subrange(0, i + 1).drop_last() =~= u.subrange(0, i as int));
                lemma_sums_prefix(u, i + 1);
            }
            travel_distance_cells = travel_distance_cells + route_usage[i].total_distance_cells;
            travel_ticks = travel_ticks + route_usage[i].total_ticks;
            i = i + 1;
        }
        proof {
            assert(u.subrange(0, i as int) =~= u);
        }
        let make_ticks = recipe.make_time_ticks;
        ProductionCycle {
            recipe,
            workshop_id,
            armoury_id,
            route_usage,
            travel_distance_cells,
            travel_ticks,
            make_ticks,
            total_ticks: travel_ticks + make_ticks,
        }
    }
}

/// The first building with identifier `building_id`.
pub fn find_building(buildings: &Vec<BuildingPlacement>, building_id: u32) -> (r: Option<&BuildingPlacement>)
    ensures
        match r {
            Some(b) => first_building(views(buildings@), building_id) == Some(b@),
            None => first_building(views(buildings@), building_id) is None,
        },
{
    let ghost bs = views(buildings@);
    let mut i: usize = 0;
    assert(bs.subrange(0, bs.len() as int) =~= bs);
    while i < buildings.len()
        invariant
            bs == views(buildings@),
            i <= bs.len(),
            first_building(bs, building_id) == first_building(bs.subrange(i as int, bs.len() as int), building_id),
        decreases bs.len() - i,
    {
        let ghost rest = bs.subrange(i as int, bs.len() as int);
        assert(rest.drop_first() =~= bs.subrange(i + 1, bs.len() as int));
        assert(rest[0] == buildings@[i as int]@);
        if buildings[i].id == building_id {
            return Some(&buildings[i]);
        }
        i = i + 1;
    }
    None
}

/// The first stockpile designated for `resource`.
pub fn find_stockpile_for_resource(buildings: &Vec<BuildingPlacement>, resource: StockpileResource) -> (r: Option<
    &BuildingPlacement,
>)
    ensures
        match r {
            Some(b) => first_stockpile(views(buildings@), resource) == Some(b.id),
            None => first_stockpile(views(buildings@), resource) is None,
        },
{
    let ghost bs = views(buildings@);
    let mut i: usize = 0;
    assert(bs.subrange(0, bs.len() as int) =~= bs);
    while i < buildings.len()
        invariant
            bs == views(buildings@),
            i <= bs.len(),
            first_stockpile(bs, resource) == first_stockpile(bs.subrange(i as int, bs.len() as int), resource),
        decreases bs.len() - i,
    {
        let ghost rest = bs.subrange(i as int, bs.len() as int);
        assert(rest.drop_first() =~= bs.subrange(i + 1, bs.len() as int));
        assert(rest[0] == buildings@[i as int]@);
        if buildings[i].stockpile_resource == Some(resource) {
            return Some(&buildings[i]);
        }
        i = i + 1;
    }
    None
}

/// Length of the worker route from `start` to `finish`, or why it has none.
pub fn distance_cells(distances: &DistanceTable, start_building_id: u32, finish_building_id: u32) -> (r: Result<
    u32,
    ProductionCycleError,
>)
    ensures
        !distances@.contains_key(pair_key(start_building_id, finish_building_id)) ==> r == Err::<u32, ProductionCycleError>(
            ProductionCycleError::MissingDistance { start_building_id, finish_building_id },
        ),
        distances@.contains_key(pair_key(start_building_id, finish_building_id)) ==> match distances@[pair_key(
            start_building_id,
            finish_building_id,
        )].distance_cells {
            Some(d) => r == Ok::<u32, ProductionCycleError>(d),
            None => r == Err::<u32, ProductionCycleError>(
                ProductionCycleError::UnreachableDistance { start_building_id, finish_building_id },
            ),
        },
{
    let key = DistanceKey::new(start_building_id, finish_building_id);
    match distances.get(&key) {
        None => Err(ProductionCycleError::MissingDistance { start_building_id, finish_building_id }),
        Some(distance) => match distance.distance_cells {
            Some(d) => Ok(d),
            None => Err(ProductionCycleError::UnreachableDistance { start_building_id, finish_building_id }),
        },
    }
}

} // verus!
