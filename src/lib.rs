//! Extraction of authoring assets (sounds and sprites) from compiled game
//! executables: container validation, the two-pass asset decryption, zlib
//! chunk extraction and the binary record decoders, all verified.

pub mod assets;
pub mod decrypt;
pub mod error;
pub mod parser;
pub mod reader;
pub mod sound;
pub mod sprite;
