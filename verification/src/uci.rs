//! The UCI protocol: options and commands.

pub mod option;
pub mod command;
pub mod tokens;
