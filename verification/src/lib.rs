//! A verified core for a directory-serving web application: safe resolution
//! of untrusted request paths to root-confined filesystem paths, directory
//! listing construction, Markdown/raw content dispatch, and error
//! presentation.

pub mod errors;
pub mod escape;
pub mod listing;
pub mod paths;
pub mod percent;
pub mod render;
pub mod resolve;
