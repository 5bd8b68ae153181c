//! Port listing library: the data model of an open socket, the rules that
//! enrich and order the entries, and the text renderers that lay them out
//! as an aligned table, a tips box and terminal-width helpers.

pub mod text;

pub mod types;
pub mod display;
pub mod collector;
