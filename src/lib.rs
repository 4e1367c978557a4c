//! Fixed-layout binary packets: primitive and composite field codecs, a
//! layout compiler for records and tagged unions, and the integer side of the
//! quantized encodings.
pub mod catalog;
pub mod codec;
pub mod laws;
pub mod layout;
pub mod prim;
pub mod quantize;
pub mod schema;
pub mod wire;
