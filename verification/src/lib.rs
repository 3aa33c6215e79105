//! A record-entry store for a field catalog kept as a grid document.
//!
//! Column 1 of the grid holds a catalog index rendered as decimal text;
//! the remaining columns hold free-text fields. The modules below provide
//! the sparse grid itself, read-only locator queries over it, the
//! gap-aware record inserter, and the field projector that densifies a
//! sparse row.

pub mod create_record;
pub mod grid;
pub mod insert_methods;
pub mod laws;
pub mod menu;
pub mod model;
pub mod num;
pub mod print_settings;
pub mod settings;
pub mod sort_cells;
pub mod table;
pub mod theme;
