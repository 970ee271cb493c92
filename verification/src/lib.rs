//! A verified writer for a fixed-layout, block-aligned archive format in the
//! style of the classic tar container: every file or directory becomes a
//! 512-byte metadata block, regular files are followed by their raw content
//! padded to a block boundary, and the stream ends with two all-zero blocks.

pub mod archive;
pub mod entry;
pub mod header;
pub mod octal;
pub mod tree;
