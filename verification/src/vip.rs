//! Validated Image Programming: the digests of everything that a flashing
//! session sends, and the hash tables by which the device checks them.
pub mod elf;
pub mod hashes;
pub mod program;
pub mod tables;

pub use elf::make_elf_header;
pub use hashes::calc_hashes;
pub use tables::gen_hash_tables;
