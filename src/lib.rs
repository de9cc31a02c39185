//! A codec between GeoJSON documents and Geobuf messages.
//!
//! - `json`: the JSON value model the codec reads and writes; numbers carry
//!   their class and, for coordinates, their value on the integer grid.
//! - `data`: the Geobuf message, with a mathematical view of each part.
//! - `coords`: delta coding of positions and the `lengths` layouts of lines,
//!   rings and polygons, with their round-trip laws.
//! - `encode` / `decode`: the encoder and decoder, each proved to compute the
//!   spec function that describes its result (`encoding`, `decoding`).
//! - `laws`: what the decoder restores of what the encoder stores.
pub mod json;
pub mod data;
pub mod coords;
pub mod encode;
pub mod decode;
pub mod laws;
