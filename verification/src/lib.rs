pub mod feature;
pub mod generate;
pub mod grid;
pub mod rng;
pub mod room;
pub mod search;
mod seq_facts;
pub mod tile;

pub use feature::{Feature, FeatureBuilder, HorizontalAlignment, VerticalAlignment};
pub use generate::Generated;
pub use grid::{TileIterator, WorldMap};
pub use rng::Rand;
pub use room::Room;
pub use search::{ConnectRooms, NeighborIterator};
pub use tile::{Entity, Location, Terrain, Tile};
