# nix_wasm_lib

Nix values for WebAssembly plugins of the Nix evaluator, and their conversion
to and from JSON, JSON5 and TOML, with the conversions proved correct in Verus.

- `src/` is the verified library: the Nix value model (attribute sets kept
  sorted by name, as a `BTreeMap` keeps them), the conversions between Nix
  values and JSON and TOML documents with their round-trip laws, reading JSON,
  JSON5 and TOML text through `serde_json`, `json5` and `toml`, and the reader
  of function signatures behind the export attribute.
- `app/` holds what the library cannot: writing JSON, JSON5 and TOML text
  (which builds floating-point values), the export attribute itself (which
  works on compiler token streams and writes the exported wrapper), and the
  exchange of values with the evaluator.

Floats are held by their IEEE-754 bit pattern (`NixValue::Float(bits)`), and
paths by the bytes that the system gives for them (`NixValue::Path`); a path
is written as JSON or TOML only where it is UTF-8 text.
