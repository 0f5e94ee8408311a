pub mod input;
pub mod tool;
pub mod validator;
pub mod preview;
