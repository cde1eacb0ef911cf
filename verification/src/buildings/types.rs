use vstd::prelude::*;

use crate::text::same_text;

verus! {

/// Slowdown base of every weapon-workshop worker (24 ticks per cell).
pub const WORKSHOP_SLOWDOWN_BASE: u32 = 2;

/// Construction cost of a building.
#[derive(Debug, Clone, Copy, PartialEq, Eq, Structural)]
pub struct BuildingCost {
    pub wood: u32,
    pub gold: u32,
}

/// Every kind of building the layout planner knows.
#[derive(Debug, Clone, Copy, PartialEq, Eq, Hash, Structural)]
pub enum BuildingType {
    GoodsYard,
    Stockpile,
    Armoury,
    FletchersWorkshop,
    BlacksmithsWorkshop,
    PoleturnersWorkshop,
    ArmourersWorkshop,
    WheatFarm,
    Windmill,
    Bakery,
    Granary,
}

impl BuildingType {
    /// The stable identifier used by tools and project files.
    pub open spec fn id_text(self) -> Seq<char> {
        match self {
            BuildingType::GoodsYard => "goods_yard"@,
            BuildingType::Stockpile => "stockpile"@,
            BuildingType::Armoury => "armoury"@,
            BuildingType::FletchersWorkshop => "fletchers_workshop"@,
            BuildingType::BlacksmithsWorkshop => "blacksmiths_workshop"@,
            BuildingType::PoleturnersWorkshop => "poleturners_workshop"@,
            BuildingType::ArmourersWorkshop => "armourers_workshop"@,
            BuildingType::WheatFarm => "wheat_farm"@,
            BuildingType::Windmill => "windmill"@,
            BuildingType::Bakery => "bakery"@,
            BuildingType::Granary => "granary"@,
        }
    }

    /// The human readable name.
    pub open spec fn name_text(self) -> Seq<char> {
        match self {
            BuildingType::GoodsYard => "Goods Yard"@,
            BuildingType::Stockpile => "Stockpile"@,
            BuildingType::Armoury => "Armoury"@,
            BuildingType::FletchersWorkshop => "Fletchers Workshop"@,
            BuildingType::BlacksmithsWorkshop => "Blacksmiths Workshop"@,
            BuildingType::PoleturnersWorkshop => "Poleturners Workshop"@,
            BuildingType::ArmourersWorkshop => "Armourers Workshop"@,
            BuildingType::WheatFarm => "Wheat Farm"@,
            BuildingType::Windmill => "Wind Mill"@,
            BuildingType::Bakery => "Bakery"@,
            BuildingType::Granary => "Granary"@,
        }
    }

    /// The building a tool identifier selects; stockpiles are only ever
    /// created as part of a goods yard, so their identifier selects nothing.
    pub open spec fn from_id_text(s: Seq<char>) -> Option<BuildingType> {
        if s == "goods_yard"@ {
            Some(BuildingType::GoodsYard)
        } else if s == "armoury"@ {
            Some(BuildingType::Armoury)
        } else if s == "fletchers_workshop"@ {
            Some(BuildingType::FletchersWorkshop)
        } else if s == "blacksmiths_workshop"@ {
            Some(BuildingType::BlacksmithsWorkshop)
        } else if s == "poleturners_workshop"@ {
            Some(BuildingType::PoleturnersWorkshop)
        } else if s == "armourers_workshop"@ {
            Some(BuildingType::ArmourersWorkshop)
        } else if s == "wheat_farm"@ {
            Some(BuildingType::WheatFarm)
        } else if s == "windmill"@ {
            Some(BuildingType::Windmill)
        } else if s == "bakery"@ {
            Some(BuildingType::Bakery)
        } else if s == "granary"@ {
            Some(BuildingType::Granary)
        } else {
            None
        }
    }

    /// The four weapon workshops.
    pub open spec fn is_weapon_workshop(self) -> bool {
        ||| self == BuildingType::FletchersWorkshop
        ||| self == BuildingType::BlacksmithsWorkshop
        ||| self == BuildingType::PoleturnersWorkshop
        ||| self == BuildingType::ArmourersWorkshop
    }

    /// The build-cost table of the simulation model.
    pub open spec fn cost_of(self) -> BuildingCost {
        match self {
            BuildingType::GoodsYard | BuildingType::Stockpile => BuildingCost { wood: 0, gold: 0 },
            BuildingType::Armoury => BuildingCost { wood: 5, gold: 0 },
            BuildingType::FletchersWorkshop => BuildingCost { wood: 20, gold: 100 },
            BuildingType::BlacksmithsWorkshop => BuildingCost { wood: 20, gold: 200 },
            BuildingType::PoleturnersWorkshop => BuildingCost { wood: 10, gold: 100 },
            BuildingType::ArmourersWorkshop => BuildingCost { wood: 20, gold: 100 },
            BuildingType::WheatFarm => BuildingCost { wood: 15, gold: 0 },
            BuildingType::Windmill => BuildingCost { wood: 20, gold: 0 },
            BuildingType::Bakery => BuildingCost { wood: 10, gold: 0 },
            BuildingType::Granary => BuildingCost { wood: 5, gold: 0 },
        }
    }

    /// The placeable building types in tool order.
    pub open spec fn placeable_types() -> Seq<BuildingType> {
        seq![
            BuildingType::GoodsYard,
            BuildingType::Armoury,
            BuildingType::FletchersWorkshop,
            BuildingType::BlacksmithsWorkshop,
            BuildingType::PoleturnersWorkshop,
            BuildingType::ArmourersWorkshop,
            BuildingType::WheatFarm,
            BuildingType::Windmill,
            BuildingType::Bakery,
            BuildingType::Granary,
        ]
    }

    pub fn id(self) -> (r: &'static str)
        ensures
            r@ == self.id_text(),
    {
        match self {
            BuildingType::GoodsYard => "goods_yard",
            BuildingType::Stockpile => "stockpile",
            BuildingType::Armoury => "armoury",
            BuildingType::FletchersWorkshop => "fletchers_workshop",
            BuildingType::BlacksmithsWorkshop => "blacksmiths_workshop",
            BuildingType::PoleturnersWorkshop => "poleturners_workshop",
            BuildingType::ArmourersWorkshop => "armourers_workshop",
            BuildingType::WheatFarm => "wheat_farm",
            BuildingType::Windmill => "windmill",
            BuildingType::Bakery => "bakery",
            BuildingType::Granary => "granary",
        }
    }

    pub fn display_name(self) -> (r: &'static str)
        ensures
            r@ == self.name_text(),
    {
        match self {
            BuildingType::GoodsYard => "Goods Yard",
            BuildingType::Stockpile => "Stockpile",
            BuildingType::Armoury => "Armoury",
            BuildingType::FletchersWorkshop => "Fletchers Workshop",
            BuildingType::BlacksmithsWorkshop => "Blacksmiths Workshop",
            BuildingType::PoleturnersWorkshop => "Poleturners Workshop",
            BuildingType::ArmourersWorkshop => "Armourers Workshop",
            BuildingType::WheatFarm => "Wheat Farm",
            BuildingType::Windmill => "Wind Mill",
            BuildingType::Bakery => "Bakery",
            BuildingType::Granary => "Granary",
        }
    }

    pub fn from_id(value: &str) -> (r: Option<BuildingType>)
        ensures
            r == BuildingType::from_id_text(value@),
    {
        if same_text(value, "goods_yard") {
            Some(BuildingType::GoodsYard)
        } else if same_text(value, "armoury") {
            Some(BuildingType::Armoury)
        } else if same_text(value, "fletchers_workshop") {
            Some(BuildingType::FletchersWorkshop)
        } else if same_text(value, "blacksmiths_workshop") {
            Some(BuildingType::BlacksmithsWorkshop)
        } else if same_text(value, "poleturners_workshop") {
            Some(BuildingType::PoleturnersWorkshop)
        } else if same_text(value, "armourers_workshop") {
            Some(BuildingType::ArmourersWorkshop)
        } else if same_text(value, "wheat_farm") {
            Some(BuildingType::WheatFarm)
        } else if same_text(value, "windmill") {
            Some(BuildingType::Windmill)
        } else if same_text(value, "bakery") {
            Some(BuildingType::Bakery)
        } else if same_text(value, "granary") {
            Some(BuildingType::Granary)
        } else {
            None
        }
    }

    pub fn all() -> (r: [BuildingType; 10])
        ensures
            r@ == BuildingType::placeable_types(),
    {
        let r = [
            BuildingType::GoodsYard,
            BuildingType::Armoury,
            BuildingType::FletchersWorkshop,
            BuildingType::BlacksmithsWorkshop,
            BuildingType::PoleturnersWorkshop,
            BuildingType::ArmourersWorkshop,
            BuildingType::WheatFarm,
            BuildingType::Windmill,
            BuildingType::Bakery,
            BuildingType::Granary,
        ];
        assert(r@ =~= BuildingType::placeable_types());
        r
    }

    pub fn is_workshop(self) -> (r: bool)
        ensures
            r == self.is_weapon_workshop(),
    {
        match self {
            BuildingType::FletchersWorkshop
            | BuildingType::BlacksmithsWorkshop
            | BuildingType::PoleturnersWorkshop
            | BuildingType::ArmourersWorkshop => true,
            _ => false,
        }
    }

    pub fn worker_slowdown_base(self) -> (r: Option<u32>)
        ensures
            r == (if self.is_weapon_workshop() {
                Some(WORKSHOP_SLOWDOWN_BASE)
            } else {
                None::<u32>
            }),
    {
        if self.is_workshop() {
            Some(WORKSHOP_SLOWDOWN_BASE)
        } else {
            None
        }
    }

    pub fn build_cost(self) -> (r: BuildingCost)
        ensures
            r == self.cost_of(),
    {
        match self {
            BuildingType::GoodsYard | BuildingType::Stockpile => BuildingCost { wood: 0, gold: 0 },
            BuildingType::Armoury => BuildingCost { wood: 5, gold: 0 },
            BuildingType::FletchersWorkshop => BuildingCost { wood: 20, gold: 100 },
            BuildingType::BlacksmithsWorkshop => BuildingCost { wood: 20, gold: 200 },
            BuildingType::PoleturnersWorkshop => BuildingCost { wood: 10, gold: 100 },
            BuildingType::ArmourersWorkshop => BuildingCost { wood: 20, gold: 100 },
            BuildingType::WheatFarm => BuildingCost { wood: 15, gold: 0 },
            BuildingType::Windmill => BuildingCost { wood: 20, gold: 0 },
            BuildingType::Bakery => BuildingCost { wood: 10, gold: 0 },
            BuildingType::Granary => BuildingCost { wood: 5, gold: 0 },
        }
    }
}

/// Every placeable building is selected again by its own identifier, and the
/// stockpile identifier selects nothing.
pub proof fn lemma_building_id_round_trip(t: BuildingType)
    ensures
        BuildingType::from_id_text(t.id_text()) == (if t == BuildingType::Stockpile {
            None::<BuildingType>
        } else {
            Some(t)
        }),
{
    reveal_strlit("goods_yard");
    assert("goods_yard"@.len() == 10 && "goods_yard"@[0] == 'g');
    reveal_strlit("stockpile");
    assert("stockpile"@.len() == 9 && "stockpile"@[0] == 's');
    reveal_strlit("armoury");
    assert("armoury"@.len() == 7 && "armoury"@[0] == 'a');
    reveal_strlit("fletchers_workshop");
    assert("fletchers_workshop"@.len() == 18 && "fletchers_workshop"@[0] == 'f');
    reveal_strlit("blacksmiths_workshop");
    assert("blacksmiths_workshop"@.len() == 20 && "blacksmiths_workshop"@[0] == 'b');
    reveal_strlit("poleturners_workshop");
    assert("poleturners_workshop"@.len() == 20 && "poleturners_workshop"@[0] == 'p');
    reveal_strlit("armourers_workshop");
    assert("armourers_workshop"@.len() == 18 && "armourers_workshop"@[0] == 'a');
    reveal_strlit("wheat_farm");
    assert("wheat_farm"@.len() == 10 && "wheat_farm"@[0] == 'w');
    reveal_strlit("windmill");
    assert("windmill"@.len() == 8 && "windmill"@[0] == 'w');
    reveal_strlit("bakery");
    assert("bakery"@.len() == 6 && "bakery"@[0] == 'b');
    reveal_strlit("granary");
    assert("granary"@.len() == 7 && "granary"@[0] == 'g');
}

} // verus!
