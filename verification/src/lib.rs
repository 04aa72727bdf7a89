//! Decoder for the sprite-sheet containers ("resource files") of a legacy game.
//!
//! A container starts with a fixed identifier, a reserved word, a sprite count
//! and a table of absolute offsets. Every non-zero offset leads to a sprite: a
//! nine-word header followed by a small opcode stream that paints 16-bit packed
//! pixels onto a zeroed canvas.
//!
//! [`rle::parse_rle`] is the entry point. What it returns is stated against
//! [`rle::decode`], a mathematical description of the format over `Seq<u8>`.
//! [`encode::encode`] goes the other way, writing the bytes that [`layout`]
//! describes, and [`round_trip::lemma_round_trip`] proves that decoding
//! undoes it.
pub mod bytes;
pub mod canvas;
pub mod encode;
pub mod error;
pub mod layout;
pub mod opcode;
pub mod reader;
pub mod rle;
pub mod round_trip;
pub mod sprite;
