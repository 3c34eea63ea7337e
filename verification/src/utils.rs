//! Helpers shared by the other modules.

pub mod collections;
pub mod distance_utilities;
pub mod filtering_utilities;
pub mod hashmap_creation;
pub mod tag_name_utilities;
