//! A directory-listing engine: metadata records, file-type classification,
//! a style table, column rendering and listing order.
pub mod text;
pub mod file;
pub mod filetype;
pub mod column;
pub mod options;
