//! ArtFlow's verified core: pixel buffers, colour bytes, filters, selections,
//! layers, the undo history, tool geometry and the byte formats the editor writes.

pub mod color;
pub mod pixel_buffer;
pub mod filters;
pub mod document;
pub mod io;
pub mod tools;
pub mod keymap;
pub mod workspace;
