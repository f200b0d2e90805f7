//! Detects which structured-data format a blob of text is written in and
//! re-emits it as JSON, YAML, TOML or CSV.

pub mod convert;
pub mod csv_out;
pub mod detect;
pub mod fence;
pub mod markdown;
pub mod model;
pub mod outside;
pub mod text;

pub use convert::{convert_map, convert_map_js, convert_value_to_formats_with_targets, FormatMap};
pub use model::{DataFormat, TargetFormat};
