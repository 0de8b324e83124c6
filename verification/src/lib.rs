//! A verified decoder for 64-bit ELF binaries.
//!
//! The crate turns a raw byte buffer into structured, validated records:
//! the identification block, the file header, the program header table
//! (with per-segment payloads), the section header table, and the string
//! tables needed to resolve section names.

pub mod bytes;
pub mod ehdr;
pub mod parser;
pub mod phdr;
pub mod shdr;

