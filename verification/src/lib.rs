//! Append-only log storage: a self-describing binary file format (header,
//! index, entry stream) and the logger that owns the working file, rotates it
//! into the archive and republishes appended entries to live watchers.

pub mod codec;
pub mod counter;
pub mod entry;
pub mod error;
pub mod fs;
pub mod header;
pub mod hub;
pub mod index;
pub mod laws;
pub mod logger;
pub mod names;
pub mod settings;
pub mod time;
