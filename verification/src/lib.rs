//! Packages a JavaScript bundler's build output into an immutable, in-memory
//! asset table and answers HTTP-style requests from it: production requests
//! are served from precompressed bytes, development requests are handed to a
//! live bundler dev server.

pub mod bundle;
pub mod html;
pub mod json;
pub mod media;
pub mod laws;
pub mod manifest;
pub mod resolve;
pub mod router;
pub mod table;

pub use table::AssetTable;
pub use table::ViteData;
pub use table::ViteFileData;
