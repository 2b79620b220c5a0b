//! Schema-driven decoding of Avro binary data, verified with Verus.
//!
//! A [`Schema`] describes the shape of a datum. [`decode`] walks the schema
//! and reads the datum's bytes through a [`Reader`], a cursor over a buffer in
//! memory, and gives a [`Value`] tree or a [`DecodeError`].
//!
//! What the decoder returns is stated against [`format`], which describes the
//! wire format as mathematics: for each schema, what the bytes at a position
//! of a buffer hold and how many of them it takes up. [`laws`] and
//! [`locality`] prove what follows from that description for every buffer:
//! that a collection reads the same however it is cut into blocks, that what
//! is read depends on nothing but the bytes read, that malformed input is
//! refused, and that integers written in zig-zag form read back as
//! themselves.
pub mod decimal;
pub mod decode;
pub mod duration;
pub mod endian;
pub mod error;
pub mod format;
pub mod laws;
pub mod locality;
pub mod reader;
pub mod schema;
pub mod uuid_text;
pub mod value;
pub mod varint;

pub use decimal::Decimal;
pub use decode::decode;
pub use duration::Duration;
pub use error::DecodeError;
pub use reader::Reader;
pub use schema::Name;
pub use schema::RecordField;
pub use schema::Schema;
pub use schema::UnionSchema;
pub use value::Value;
pub use value::ValueMap;
