pub mod id;
pub mod unit;
pub mod enums;
pub mod error;
pub mod capability;
pub mod service;
