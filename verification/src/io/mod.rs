//! Byte formats the editor writes and reads.

pub mod base64;
pub mod formats;
pub mod project;
pub mod psd;
pub mod svg;
