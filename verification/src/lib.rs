//! Verified core of a DuckDB extension that converts between protobuf
//! messages and JSON and extracts fields by path.

pub mod call_laws;
pub mod numeric;
pub mod std_ext;
pub mod text;
pub mod to_json;
pub mod error;
pub mod external;
pub mod extract;
pub mod from_json;
pub mod json;
pub mod laws;
pub mod path;
pub mod path_laws;
pub mod schema;
pub mod value;
pub mod well_known_types;
