pub mod economy;
pub mod logistics;
pub mod movement;
