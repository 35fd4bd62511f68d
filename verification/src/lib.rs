//! A verified core for a container-engine command-line helper.
//!
//! The library holds everything the tool decides or computes: parsing the
//! engine's delimited listing output, resolving rank shorthands to
//! identifiers, building the argument vectors for every engine invocation,
//! the service catalog with its JSON file format, and the colour-markup
//! segmentation used by the usage text. Process spawning, file access and
//! terminal output live outside the library and hand plain values in and out.

pub mod catalog_file;
pub mod command_executor;
pub mod config;
pub mod container_helper;
pub mod decimal;
pub mod dispatch;
pub mod image_helper;
pub mod json;
pub mod listing;
pub mod markup;
pub mod ots_helper;
pub mod rank;
pub mod resolve;
pub mod system_helper;
pub mod text;
pub mod volume_helper;
