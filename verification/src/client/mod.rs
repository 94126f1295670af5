//! The client that puts a committee under load.

pub mod settings;
pub mod stresser;
