//! A toroidal Game-of-Life simulation with aging dead cells, together with a
//! differential renderer that turns a board into the minimal set of terminal
//! drawing commands needed to repaint only the cells that changed.

pub mod board;
pub mod laws;
pub mod render;
