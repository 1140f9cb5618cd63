//! Language producers: turn source text into a `Surface`, dispatched by file
//! extension. Adding a language is a new producer plus one entry in the
//! registry — grammar (data), not a new binary.

pub mod body_laws;
pub mod go;
pub mod go_item_laws;
pub mod go_laws;
pub mod moved;
pub mod moved_laws;
pub mod refs;
pub mod registry;
pub mod rust;
pub mod rust_item_laws;
pub mod rust_laws;
pub mod syntax;
pub mod tree_laws;
