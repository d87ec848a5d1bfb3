use vstd::prelude::*;

verus! {

/// An integer grid coordinate.
#[derive(Clone, Copy, Debug, PartialEq, Eq, Hash, Structural)]
pub struct Location {
    pub x: i32,
    pub y: i32,
}

impl Location {
    /// Manhattan (taxicab) distance between two locations, as a mathematical integer.
    pub open spec fn manhattan_spec(self, other: Location) -> int {
        (if self.x >= other.x {
            self.x - other.x
        } else {
            other.x - self.x
        }) + (if self.y >= other.y {
            self.y - other.y
        } else {
            other.y - self.y
        })
    }

    pub fn new(x: i32, y: i32) -> (r: Self)
        ensures
            r == (Location { x, y }),
    {
        Location { x, y }
    }

    pub fn manhattan(&self, other: &Location) -> (r: i32)
        requires
            self.manhattan_spec(*other) <= i32::MAX,
        ensures
            r == self.manhattan_spec(*other),
    {
        let total_x: i32 = if self.x > other.x {
            self.x - other.x
        } else {
            other.x - self.x
        };
        let total_y: i32 = if self.y > other.y {
            self.y - other.y
        } else {
            other.y - self.y
        };
        total_x + total_y
    }
}

/// The material of a single grid cell. `Debug` marks a carved path.
#[derive(Clone, Copy, Debug, PartialEq, Eq, Structural)]
pub enum Terrain {
    Debug,
    Nothing,
    Floor,
    Wall,
}

/// A reference to something standing on a tile; an attachment point only.
#[derive(Clone, Copy, Debug, PartialEq, Eq, Structural)]
pub struct Entity {
    id: u64,
}

/// One cell of the world: its terrain plus whatever entities stand on it.
pub struct Tile {
    pub terrain: Terrain,
    pub entities: Vec<Entity>,
}

impl Tile {
    pub fn new(terrain: Terrain) -> (t: Self)
        ensures
            t.terrain == terrain,
            t.entities@.len() == 0,
    {
        Tile { terrain, entities: Vec::new() }
    }
}

} // verus!
