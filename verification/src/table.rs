//! The code-table subsystem: descriptor model, versioned table
//! bundles with their lookups, and the template expander.

pub mod descriptor;
pub mod table;
pub mod template;
