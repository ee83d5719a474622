//! Reading and writing PAK archives: a 12-byte header, a table of 64-byte
//! directory records, and the entries' data.
pub mod error;
pub mod le;
pub mod buf;
pub mod header;
pub mod text;
pub mod entry;
pub mod archive;
pub mod load;
pub mod save;
pub mod laws;
