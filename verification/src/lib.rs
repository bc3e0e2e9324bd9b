//! Verified core of an AUR-style package-registry client: query-URL
//! construction, response-schema extraction, result ranking (including a
//! package-manager version comparator), run configuration, and build-manifest
//! dependency extraction.

pub mod aur;
pub mod config;
pub mod json;
pub mod ops;
pub mod package;
pub mod rank;
pub mod srcinfo;
pub mod strutil;
pub mod vercmp;
