//! Core logic of a local reader for `.cbz` manga volumes: image header
//! parsing, path rules, natural ordering of names, volume and read-list
//! assembly, the flat page index and the prefetch window.

pub mod cbz;
pub mod error;
pub mod global_index;
pub mod image;
pub mod manga;
pub mod natural;
pub mod path;
pub mod readlist;
pub mod routes;
pub mod window;
