//! A scrollable list view over a directory listing: selection, viewport,
//! ordering, filtering and a cache of rendered lines.
pub mod term;
pub mod files;
pub mod listview;
pub mod render;
pub mod laws;
