//! Mapping: map storage, local-map selection, culling, and optimization.

pub mod ba;
pub mod culling;
pub mod growth;
pub mod local_map;
pub mod map;

pub use culling::cull_map_points;
pub use growth::{build_initial_map, grow_map_points_from_keyframe_pair};
pub use map::{Keyframe, MapPoint, SlamMap};
