//! Building flashable images for Espressif targets: the chip profile table,
//! the partition table codec, the firmware header encoder, the image
//! assembler and the raw write planner.

pub mod app_image;
pub mod assemble;
pub mod binary;
pub mod bytes;
pub mod case;
pub mod chip;
pub mod cli;
pub mod command;
pub mod digest;
pub mod enums;
pub mod error;
pub mod header;
pub mod lex;
pub mod names;
pub mod opts;
pub mod partition;
pub mod segment;
pub mod text;
pub mod words;
pub mod write;
