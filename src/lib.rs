//! Retrieval of a serialised novel from a text-hosting site: query encoding,
//! extraction of records from the site's markup, and cleanup of chapter text.

pub mod text;
pub mod encoding;
pub mod extract;
pub mod progress;
