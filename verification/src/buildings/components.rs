use vstd::prelude::*;

verus! {

/// The cell at which workers enter and leave a building.
#[derive(Debug, Clone, Copy, PartialEq, Eq, Hash, Structural)]
pub struct EntryPoint {
    pub x: i32,
    pub y: i32,
}

/// Kinds of sub-structures a building may own.
#[derive(Debug, Clone, Copy, PartialEq, Eq, Hash, Structural)]
pub enum BuildingComponentType {
    GoodsYardStack,
}

/// A square sub-structure of a building with an entry point of its own.
#[derive(Debug, Clone, Copy, PartialEq, Eq, Hash, Structural)]
pub struct BuildingComponent {
    pub id: u8,
    pub component_type: BuildingComponentType,
    pub x: i32,
    pub y: i32,
    pub size: usize,
    pub entry_point: Option<EntryPoint>,
}

/// The goods a stockpile can be designated to hold.
#[derive(Debug, Clone, Copy, PartialEq, Eq, Hash, Structural)]
pub enum StockpileResource {
    Wood,
    Iron,
    Wheat,
    Flour,
}

impl StockpileResource {
    pub open spec fn name_text(self) -> Seq<char> {
        match self {
            StockpileResource::Wood => "Wood"@,
            StockpileResource::Iron => "Iron"@,
            StockpileResource::Wheat => "Wheat"@,
            StockpileResource::Flour => "Flour"@,
        }
    }

    pub open spec fn label_text(self) -> Seq<char> {
        match self {
            StockpileResource::Wood => "W"@,
            StockpileResource::Iron => "I"@,
            StockpileResource::Wheat => "Wh"@,
            StockpileResource::Flour => "Fl"@,
        }
    }

    pub fn display_name(self) -> (r: &'static str)
        ensures
            r@ == self.name_text(),
    {
        match self {
            StockpileResource::Wood => "Wood",
            StockpileResource::Iron => "Iron",
            StockpileResource::Wheat => "Wheat",
            StockpileResource::Flour => "Flour",
        }
    }

    pub fn short_label(self) -> (r: &'static str)
        ensures
            r@ == self.label_text(),
    {
        match self {
            StockpileResource::Wood => "W",
            StockpileResource::Iron => "I",
            StockpileResource::Wheat => "Wh",
            StockpileResource::Flour => "Fl",
        }
    }
}

} // verus!
