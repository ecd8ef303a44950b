# protoduck

The verified core of ProtoDuck, a DuckDB extension for protobuf messages
stored in table columns: protobuf to JSON, JSON to protobuf, and field
extraction by path (`orders[0].items[1].product.name`, `props["key"]`).

- `src/` is the library, checked by Verus. Schemas, messages and JSON
  documents are plain data (`schema`, `value`, `json`); the conversions are
  `to_json::message_to_json`, `from_json::json_to_proto`,
  `well_known_types::json_to_proto_with_wkt` and
  `extract::extract_field_value`, each with a contract that states its
  result exactly over spec functions. `laws` and `path_laws` prove what holds
  across them: the JSON written for a message reads back as the message
  (for messages without floating-point values or Timestamps inside maps, with
  Timestamps that chrono reads back, and with at most one field of each
  oneof set; unset lists and maps come back empty), the full type mapping
  of that JSON, integer strings, that output normalization changes nothing
  where no Timestamp type is reachable, how paths read, and what extraction
  by a path gives.
  `external` holds the calls into base64 and chrono that the conversions
  rest on; `well_known_types::read_timestamp_json` calls prost-reflect's
  canonical Timestamp reader.
- `app/` registers the functions with DuckDB, keeps the prost-reflect
  descriptor pool (schemas compiled with protox), and converts between the
  outside crates' values and the library's.
- `tests/` runs the library on concrete schemas and messages.
