//! The records as the database layer keeps them: ids are set only by the
//! database, and read through getters.

pub mod directory;
pub mod image;
pub mod label;
