//! Serving files from the site directory: which file a request names, which stored
//! encoding answers it, and how preconditions and ranges shape the response.

pub mod conditional;
pub mod encodings;
pub mod handlers;
pub mod paths;
