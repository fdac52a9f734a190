//! Nix values and their conversion to and from JSON, JSON5 and TOML, and the
//! reading of function signatures exported to Nix.
//!
//! - `keys`: the order of attribute names.
//! - `value`: the Nix value, its model, attribute sets kept sorted, and the
//!   conversions of Rust values (options, lists, slices, pairs) into it.
//! - `json_model`, `toml_model`: JSON and TOML documents and their conversion
//!   to and from Nix values, with the round-trip laws.
//! - `json_text`, `toml_text`: reading JSON, JSON5 and TOML text through
//!   `serde_json`, `json5` and `toml`.
//! - `writing`: what keeps a Nix value from being written as JSON or TOML.
//! - `export`: reading `pub fn name(args) -> type { body }` from tokens.
pub mod keys;
pub mod value;
pub mod json_model;
pub mod json_text;
pub mod toml_model;
pub mod toml_text;
pub mod writing;
pub mod export;
