//! Loading of a 64-bit little-endian ELF kernel image, and of the kernel
//! command line, into the physical memory of a guest.
//!
//! A kernel is loaded in one of two ways. [`ElfLoader::load_kernel`] takes
//! the bytes of the whole image and copies its segments to guest memory
//! itself. [`steps::Loading`] takes a load step by step, for an image behind
//! a source that the caller reads: it decides, and the caller moves, reads
//! and copies. Both decide the same.

pub mod cmdline;
pub mod elf;
pub mod error;
pub mod guest;
pub mod loader;
pub mod segments;
pub mod steps;

pub use crate::cmdline::{load_cmdline, CommandLine};
pub use crate::error::Error;
pub use crate::loader::ElfLoader;
