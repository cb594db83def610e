//! Import maps: a parsed document held as plain strings, and the resolution
//! of module specifiers against it.

pub mod document;
pub mod locations;
pub mod resolver;
pub mod specifier;
