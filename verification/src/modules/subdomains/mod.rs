//! The modules that look up the host names under a domain in public records.
pub mod crtsh;
pub mod web_archive;

pub use crtsh::{CrtSh, CrtShEntry};
pub use web_archive::WebArchive;
