//! Parser-synchronized journals of terminal output and their delivery to
//! clients.

pub mod alt_screen;
pub mod delivery;
pub mod journal;
pub mod laws;
pub mod product;
pub mod pump;
pub mod stream;
