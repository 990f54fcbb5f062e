//! A typed, order-preserving binary codec for compound sort keys, together
//! with a schema-driven comparator that restores correct per-field ordering
//! (signed integers, floating-point values with a total NaN policy, reversed
//! field order, variable-length strings and byte sequences) that a naive
//! byte-wise comparison of the encoded keys cannot provide.

pub mod float_order;
pub mod keys;
pub mod order;
pub mod schema;
pub mod wire;

pub use float_order::F32struct;
pub use float_order::F64struct;
pub use keys::decode_byte_array;
pub use keys::encode_keys;
pub use keys::Decode;
pub use keys::DecodeError;
pub use keys::DecodeType;
pub use keys::Encode;
pub use keys::EncodeType;
pub use order::compare;
pub use order::compare_bytes;
pub use schema::deserialize_decode_types;
pub use schema::serialize_decode_types;
pub use schema::validate_types;
