//! Rule-based autotiling: neighbour-matching rules decoded from colour-coded
//! reference images, mesh generation over an occupancy map, and a padded,
//! bleed-safe texture atlas.

pub mod geom;
pub mod connection;
pub mod rules;
pub mod tileset;
pub mod picture;
pub mod colors;
pub mod loader;
pub mod atlas;
pub mod sparse;
pub mod goal;
pub mod play;
pub mod buttons;

pub use atlas::{AtlasError, CopyOp};
pub use buttons::Anchor;
pub use colors::ColorRules;
pub use connection::{Connection, ConnectionFilter};
pub use goal::{end_turn, init, GridCoords, LevelProgress};
pub use geom::{direction, direction_index, IVec2, UVec2, DIRECTION_COUNT};
pub use loader::{load_rules_from_image, rules_from_picture, LoadError};
pub use play::{next_transition, Transition};
pub use picture::{Picture, Rgba};
pub use rules::{Rule, Tile};
pub use sparse::SparseTileMap;
pub use tileset::{TexelRect, TexturedTile, TileMap, TilesetDef};
