use vstd::prelude::*;

verus! {

/// Why cells could not be claimed on the map.
#[derive(Debug, Clone, Copy, PartialEq, Eq, Structural)]
pub enum MapError {
    OutOfBounds,
    Occupied,
}

impl MapError {
    pub open spec fn message_text(self) -> Seq<char> {
        match self {
            MapError::OutOfBounds => "placement is out of map bounds"@,
            MapError::Occupied => "one or more cells are already occupied"@,
        }
    }

    /// The user-facing description of the error.
    pub fn message(&self) -> (r: &'static str)
        ensures
            r@ == self.message_text(),
    {
        match self {
            MapError::OutOfBounds => "placement is out of map bounds",
            MapError::Occupied => "one or more cells are already occupied",
        }
    }
}

} // verus!
