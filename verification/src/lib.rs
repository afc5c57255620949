pub mod text;
pub mod paths;
pub mod order;
pub mod dates;
pub mod git;
pub mod config;
pub mod assess;
pub mod report;
pub mod scan;
pub mod status;
pub mod cache;
pub mod sessions;
pub mod clean;
pub mod dedupe;
pub mod bundle;
pub mod manifest;
pub mod extras;
pub mod archive;
pub mod restore;
