pub mod comparator;
pub mod order;
pub mod recorder;
pub mod schema;

