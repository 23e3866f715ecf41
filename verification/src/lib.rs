//! The logic of a local comic library: reading `info.txt` metadata files,
//! tokenizing and compiling search queries, planning the database work of an
//! import, building and querying tag suggestions, and picking out the images
//! of a gallery.

pub mod decimal;
pub mod image;
pub mod import;
pub mod info;
pub mod query;
pub mod suggest;
pub mod text;
