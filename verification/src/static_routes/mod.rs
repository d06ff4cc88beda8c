//! Pages that are generated once, stored as files, and served from there.

pub mod generation;
pub mod names;
pub mod paths;
pub mod report;
pub mod serve;
pub mod storage;
pub mod verified;
pub mod work;
