pub mod map;
pub mod definitions;
pub mod entities;
pub mod town;
