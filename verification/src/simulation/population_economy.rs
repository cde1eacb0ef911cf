use vstd::prelude::*;

use super::production_cycle::{clamp_fear, clamped_fear_factor};

verus! {

/// Population limit a new calculator starts with.
pub const DEFAULT_MAX_POPULATION: u32 = 500;
/// People one inn serves.
pub const INN_CAPACITY: u32 = 30;
/// Workers of one stone quarry with its ox.
pub const STONE_WORKERS: u32 = 4;
/// Workers of one iron mine.
pub const IRON_MINE_WORKERS: u32 = 2;
/// Workers of one inn.
pub const INN_WORKERS: u32 = 1;
/// Ticks in a game month, the tax period.
pub const GAME_MONTH_TICKS: u32 = 800;
/// Wood to build an inn.
pub const INN_BUILD_WOOD: u32 = 20;
/// Gold to build an inn.
pub const INN_BUILD_GOLD: u32 = 100;
/// Wood to build a stone quarry.
pub const STONE_QUARRY_BUILD_WOOD: u32 = 25;
/// Wood to build an iron mine.
pub const IRON_MINE_BUILD_WOOD: u32 = 20;
/// Largest count the calculator accepts for any of its inputs.
pub const MAX_CALCULATOR_COUNT: u32 = 10_000;
/// Number of tax levels.
pub const TAX_LEVEL_COUNT: u8 = 12;
/// Number of food rations.
pub const FOOD_RATIO_COUNT: u8 = 5;

/// Inputs of the population and additional-resource calculator.
#[derive(Debug, Clone, Copy, PartialEq, Eq, Structural)]
pub struct PopulationEconomySettings {
    pub max_population: u32,
    pub population: u32,
    pub inn_count: u32,
    pub stone_quarry_count: u32,
    pub iron_mine_count: u32,
    pub tax_index: u8,
    pub food_ratio_index: u8,
}

pub open spec fn min_u32(a: u32, b: u32) -> u32 {
    if a <= b {
        a
    } else {
        b
    }
}

/// Popularity of each tax level, from the largest bribe to the highest tax.
pub open spec fn tax_popularity_spec(index: int) -> int {
    if index == 0 {
        7
    } else if index == 1 {
        5
    } else if index == 2 {
        3
    } else if index == 3 {
        1
    } else if index == 4 {
        -2
    } else if index == 5 {
        -4
    } else if index == 6 {
        -6
    } else if index == 7 {
        -8
    } else if index == 8 {
        -12
    } else if index == 9 {
        -16
    } else if index == 10 {
        -20
    } else {
        -24
    }
}

/// Heavier taxes never make people happier: over the tax levels, from the
/// largest bribe to the heaviest tax, popularity falls with every step; the
/// levels up to no tax at all raise it, and every level that collects tax
/// lowers it.
pub proof fn lemma_tax_popularity_falls(i: int, j: int)
    requires
        0 <= i < j < TAX_LEVEL_COUNT,
    ensures
        tax_popularity_spec(i) > tax_popularity_spec(j),
        i <= 3 ==> tax_popularity_spec(i) > 0,
        j > 3 ==> tax_popularity_spec(j) < 0,
{
}

/// Of two calculator settings that differ only in the tax level, the one
/// with the heavier tax has the lower total popularity.
pub proof fn lemma_heavier_tax_lowers_popularity(a: PopulationEconomySettings, b: PopulationEconomySettings, fear_factor: int)
    requires
        a.normalized_spec().tax_index < b.normalized_spec().tax_index,
        a.normalized_spec().food_ratio_index == b.normalized_spec().food_ratio_index,
        a.normalized_spec().inn_count == b.normalized_spec().inn_count,
        a.normalized_spec().population == b.normalized_spec().population,
    ensures
        tax_popularity_spec(a.normalized_spec().tax_index as int) > tax_popularity_spec(b.normalized_spec().tax_index as int),
        tax_popularity_spec(a.normalized_spec().tax_index as int) + food_popularity_spec(
            a.normalized_spec().food_ratio_index as int,
        ) + inn_popularity_spec(
            saturating_spec(a.normalized_spec().inn_count * INN_CAPACITY),
            a.normalized_spec().population as int,
        ) + clamp_fear(fear_factor) > tax_popularity_spec(b.normalized_spec().tax_index as int) + food_popularity_spec(
            b.normalized_spec().food_ratio_index as int,
        ) + inn_popularity_spec(
            saturating_spec(b.normalized_spec().inn_count * INN_CAPACITY),
            b.normalized_spec().population as int,
        ) + clamp_fear(fear_factor),
{
    lemma_tax_popularity_falls(a.normalized_spec().tax_index as int, b.normalized_spec().tax_index as int);
}

/// Popularity of each food ration, from no food to double rations.
pub open spec fn food_popularity_spec(index: int) -> int {
    if index == 0 {
        -8
    } else if index == 1 {
        -4
    } else if index == 2 {
        0
    } else if index == 3 {
        4
    } else {
        8
    }
}

pub open spec fn food_name_text(index: int) -> Seq<char> {
    if index == 0 {
        "No food"@
    } else if index == 1 {
        "Half rations"@
    } else if index == 2 {
        "Normal rations"@
    } else if index == 3 {
        "Extra rations"@
    } else {
        "Double rations"@
    }
}

/// Inn popularity for the share of the population the inns serve:
/// +8 for everyone, +6 above three quarters, +4 above half, +2 above a
/// quarter, otherwise nothing; with no population nobody is served.
pub open spec fn inn_popularity_spec(capacity: int, population: int) -> int {
    if population == 0 {
        0
    } else if capacity >= population {
        8
    } else if 4 * capacity > 3 * population {
        6
    } else if 2 * capacity > population {
        4
    } else if 4 * capacity > population {
        2
    } else {
        0
    }
}

/// Better rations make people happier: popularity rises with every step
/// from no food to double rations; less than normal rations lower it and
/// more than normal raise it.
pub proof fn lemma_more_food_raises_popularity(i: int, j: int)
    requires
        0 <= i < j < FOOD_RATIO_COUNT,
    ensures
        food_popularity_spec(i) < food_popularity_spec(j),
        i < 2 ==> food_popularity_spec(i) < 0,
        j > 2 ==> food_popularity_spec(j) > 0,
{
}

/// Inns please people more the more of them they can serve: popularity
/// from inns never falls when capacity grows or the population shrinks,
/// stays between 0 and 8, and reaches 8 exactly when every person is
/// served.
pub proof fn lemma_inn_popularity_follows_coverage(c1: int, c2: int, p1: int, p2: int)
    requires
        0 <= c1 <= c2,
        0 < p2 <= p1,
    ensures
        inn_popularity_spec(c1, p1) <= inn_popularity_spec(c2, p1),
        inn_popularity_spec(c1, p1) <= inn_popularity_spec(c1, p2),
        0 <= inn_popularity_spec(c1, p1) <= 8,
        inn_popularity_spec(c1, p1) == 8 <==> c1 >= p1,
        inn_popularity_spec(c1, 0) == 0,
{
}

pub open spec fn saturating_spec(v: int) -> int {
    if v > u32::MAX {
        u32::MAX as int
    } else {
        v
    }
}

/// `a * b`, or `u32::MAX` when the product does not fit.
fn sat_mul(a: u32, b: u32) -> (r: u32)
    ensures
        r == saturating_spec(a * b),
{
    match a.checked_mul(b) {
        Some(v) => v,
        None => u32::MAX,
    }
}

impl PopulationEconomySettings {
    pub open spec fn default_spec() -> PopulationEconomySettings {
        PopulationEconomySettings {
            max_population: DEFAULT_MAX_POPULATION,
            population: 0,
            inn_count: 0,
            stone_quarry_count: 0,
            iron_mine_count: 0,
            tax_index: 3,
            food_ratio_index: 2,
        }
    }

    pub open spec fn normalized_spec(self) -> PopulationEconomySettings {
        let max_population = if self.max_population < 1 {
            1u32
        } else {
            min_u32(self.max_population, MAX_CALCULATOR_COUNT)
        };
        PopulationEconomySettings {
            max_population,
            population: min_u32(self.population, max_population),
            inn_count: min_u32(self.inn_count, MAX_CALCULATOR_COUNT),
            stone_quarry_count: min_u32(self.stone_quarry_count, MAX_CALCULATOR_COUNT),
            iron_mine_count: min_u32(self.iron_mine_count, MAX_CALCULATOR_COUNT),
            tax_index: if self.tax_index > TAX_LEVEL_COUNT - 1 {
                (TAX_LEVEL_COUNT - 1) as u8
            } else {
                self.tax_index
            },
            food_ratio_index: if self.food_ratio_index > FOOD_RATIO_COUNT - 1 {
                (FOOD_RATIO_COUNT - 1) as u8
            } else {
                self.food_ratio_index
            },
        }
    }

    /// Every count limited to what the calculator accepts, the population
    /// to the population limit, and the indices to the tables.
    pub fn normalized(self) -> (r: PopulationEconomySettings)
        ensures
            r == self.normalized_spec(),
    {
        let max_population = if self.max_population < 1 {
            1
        } else if self.max_population > MAX_CALCULATOR_COUNT {
            MAX_CALCULATOR_COUNT
        } else {
            self.max_population
        };
        let population = if self.population > max_population { max_population } else { self.population };
        let inn_count = if self.inn_count > MAX_CALCULATOR_COUNT { MAX_CALCULATOR_COUNT } else { self.inn_count };
        let stone_quarry_count = if self.stone_quarry_count > MAX_CALCULATOR_COUNT {
            MAX_CALCULATOR_COUNT
        } else {
            self.stone_quarry_count
        };
        let iron_mine_count = if self.iron_mine_count > MAX_CALCULATOR_COUNT {
            MAX_CALCULATOR_COUNT
        } else {
            self.iron_mine_count
        };
        let tax_index = if self.tax_index > TAX_LEVEL_COUNT - 1 { TAX_LEVEL_COUNT - 1 } else { self.tax_index };
        let food_ratio_index = if self.food_ratio_index > FOOD_RATIO_COUNT - 1 {
            FOOD_RATIO_COUNT - 1
        } else {
            self.food_ratio_index
        };
        PopulationEconomySettings {
            max_population,
            population,
            inn_count,
            stone_quarry_count,
            iron_mine_count,
            tax_index,
            food_ratio_index,
        }
    }

    /// Popularity of the selected tax level.
    pub fn tax_popularity(self) -> (r: i32)
        ensures
            r == tax_popularity_spec(self.normalized_spec().tax_index as int),
    {
        let index = self.normalized().tax_index;
        match index {
            0 => 7,
            1 => 5,
            2 => 3,
            3 => 1,
            4 => -2,
            5 => -4,
            6 => -6,
            7 => -8,
            8 => -12,
            9 => -16,
            10 => -20,
            _ => -24,
        }
    }

    /// Popularity of the selected food ration.
    pub fn food_popularity(self) -> (r: i32)
        ensures
            r == food_popularity_spec(self.normalized_spec().food_ratio_index as int),
    {
        let index = self.normalized().food_ratio_index;
        match index {
            0 => -8,
            1 => -4,
            2 => 0,
            3 => 4,
            _ => 8,
        }
    }

    /// Name of the selected food ration.
    pub fn food_ratio_name(self) -> (r: &'static str)
        ensures
            r@ == food_name_text(self.normalized_spec().food_ratio_index as int),
    {
        let index = self.normalized().food_ratio_index;
        match index {
            0 => "No food",
            1 => "Half rations",
            2 => "Normal rations",
            3 => "Extra rations",
            _ => "Double rations",
        }
    }

    /// People the inns can serve.
    pub fn inn_capacity(self) -> (r: u32)
        ensures
            r == saturating_spec(self.normalized_spec().inn_count * INN_CAPACITY),
    {
        sat_mul(self.normalized().inn_count, INN_CAPACITY)
    }

    /// Popularity the inns give.
    pub fn inn_popularity(self) -> (r: i32)
        ensures
            r == inn_popularity_spec(
                saturating_spec(self.normalized_spec().inn_count * INN_CAPACITY),
                self.normalized_spec().population as int,
            ),
    {
        let capacity = self.inn_capacity() as u64;
        let population = self.normalized().population as u64;
        if population == 0 {
            0
        } else if capacity >= population {
            8
        } else if 4 * capacity > 3 * population {
            6
        } else if 2 * capacity > population {
            4
        } else if 4 * capacity > population {
            2
        } else {
            0
        }
    }

    /// Workers of the inns, quarries and mines.
    pub fn additional_workers(self) -> (r: u32)
        ensures
            r == saturating_spec(
                saturating_spec(
                    saturating_spec(self.normalized_spec().inn_count * INN_WORKERS) + saturating_spec(
                        self.normalized_spec().stone_quarry_count * STONE_WORKERS,
                    ),
                ) + saturating_spec(self.normalized_spec().iron_mine_count * IRON_MINE_WORKERS),
            ),
    {
        let s = self.normalized();
        sat_mul(s.inn_count, INN_WORKERS).saturating_add(sat_mul(s.stone_quarry_count, STONE_WORKERS)).saturating_add(
            sat_mul(s.iron_mine_count, IRON_MINE_WORKERS),
        )
    }

    /// Wood to build the inns, quarries and mines.
    pub fn additional_build_wood(self) -> (r: u32)
        ensures
            r == saturating_spec(
                saturating_spec(
                    saturating_spec(self.normalized_spec().inn_count * INN_BUILD_WOOD) + saturating_spec(
                        self.normalized_spec().stone_quarry_count * STONE_QUARRY_BUILD_WOOD,
                    ),
                ) + saturating_spec(self.normalized_spec().iron_mine_count * IRON_MINE_BUILD_WOOD),
            ),
    {
        let s = self.normalized();
        sat_mul(s.inn_count, INN_BUILD_WOOD).saturating_add(sat_mul(s.stone_quarry_count, STONE_QUARRY_BUILD_WOOD)).saturating_add(
            sat_mul(s.iron_mine_count, IRON_MINE_BUILD_WOOD),
        )
    }

    /// Gold to build the inns.
    pub fn additional_build_gold(self) -> (r: u32)
        ensures
            r == saturating_spec(self.normalized_spec().inn_count * INN_BUILD_GOLD),
    {
        sat_mul(self.normalized().inn_count, INN_BUILD_GOLD)
    }

    /// Total popularity: tax, food, inns and fear factor.
    pub fn total_popularity(self, fear_factor: i32) -> (r: i32)
        ensures
            r == tax_popularity_spec(self.normalized_spec().tax_index as int) + food_popularity_spec(
                self.normalized_spec().food_ratio_index as int,
            ) + inn_popularity_spec(
                saturating_spec(self.normalized_spec().inn_count * INN_CAPACITY),
                self.normalized_spec().population as int,
            ) + clamp_fear(fear_factor as int),
    {
        self.tax_popularity() + self.food_popularity() + self.inn_popularity() + clamped_fear_factor(fear_factor)
    }
}

impl Default for PopulationEconomySettings {
    fn default() -> (r: PopulationEconomySettings)
        ensures
            r == PopulationEconomySettings::default_spec(),
    {
        PopulationEconomySettings {
            max_population: DEFAULT_MAX_POPULATION,
            population: 0,
            inn_count: 0,
            stone_quarry_count: 0,
            iron_mine_count: 0,
            tax_index: 3,
            food_ratio_index: 2,
        }
    }
}

} // verus!
