//! Routing core of a small line-oriented chat service.

pub mod command;
pub mod identity;
pub mod login;
pub mod name_map;
pub mod registry;
pub mod router;
pub mod session;
pub mod text;
