//! The domain model: users own works, works own elements, and elements may
//! nest further elements; folders, documents, genres and categories hang off
//! the same identity framework as auxiliary content.

pub mod element;
pub mod folder;
pub mod user;
pub mod work;
