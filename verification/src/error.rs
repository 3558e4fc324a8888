//! The failures that loading a kernel or its command line can end in.

use vstd::prelude::*;
use vstd::string::StringExecFns;

verus! {

/// Why a kernel image or a command line could not be loaded.
#[derive(Debug, PartialEq, Eq, Structural)]
pub enum Error {
    /// The image is a big-endian ELF file.
    BigEndianElfOnLittle,
    /// Guest memory refused the write of the command line.
    CommandLineCopy,
    /// The command line does not end inside guest memory.
    CommandLineOverflow,
    /// The image does not begin with the ELF magic number.
    InvalidElfMagicNumber,
    /// The size of a program header entry is not that of the 64-bit format.
    InvalidProgramHeaderSize,
    /// The program header table begins inside the ELF header.
    InvalidProgramHeaderOffset,
    /// The address of a segment, added to the base, leaves the address space.
    InvalidProgramHeaderAddress,
    /// The entry point lies below the lowest address allowed.
    InvalidEntryAddress,
    /// The address at which to load the kernel is not usable.
    InvalidKernelStartAddress,
    /// The initial ramdisk does not fit.
    InitrdImageSizeTooLarge,
    /// The image is too short to hold an ELF header.
    ReadElfHeader,
    /// A segment could not be copied whole into guest memory.
    ReadKernelImage,
    /// The image is too short to hold its program header table.
    ReadProgramHeader,
    /// The initial ramdisk could not be read.
    ReadInitrdImage,
    /// The position of a segment in the image could not be reached.
    SeekKernelStart,
    /// The start of the image could not be reached.
    SeekElfStart,
    /// The position of the program header table could not be reached.
    SeekProgramHeader,
    /// The position of the initial ramdisk could not be reached.
    SeekInitrdImage,
}

/// What every message of an [`Error`] begins with.
pub open spec fn message_prefix() -> Seq<char> {
    "Kernel Loader Error: "@
}

impl Error {
    /// The text that describes each failure.
    pub open spec fn description_text(self) -> Seq<char> {
        match self {
            Error::BigEndianElfOnLittle => {
                "Trying to load big-endian binary on little-endian machine"@
            },
            Error::CommandLineCopy => "Failed writing command line to guest memory"@,
            Error::CommandLineOverflow => "Command line overflowed guest memory"@,
            Error::InvalidElfMagicNumber => "Invalid Elf magic number"@,
            Error::InvalidProgramHeaderSize => "Invalid program header size"@,
            Error::InvalidProgramHeaderOffset => "Invalid program header offset"@,
            Error::InvalidProgramHeaderAddress => "Invalid Program Header Address"@,
            Error::InvalidEntryAddress => "Invalid entry address"@,
            Error::InvalidKernelStartAddress => "Invalid kernel start address"@,
            Error::InitrdImageSizeTooLarge => "Initrd image size too large"@,
            Error::ReadElfHeader => "Unable to read elf header"@,
            Error::ReadKernelImage => "Unable to read kernel image"@,
            Error::ReadProgramHeader => "Unable to read program header"@,
            Error::ReadInitrdImage => "Unable to read initrd image"@,
            Error::SeekKernelStart => "Unable to seek to kernel start"@,
            Error::SeekElfStart => "Unable to seek to elf start"@,
            Error::SeekProgramHeader => "Unable to seek to program header"@,
            Error::SeekInitrdImage => "Unable to seek initrd image"@,
        }
    }

    /// A short description of the failure.
    pub fn description(&self) -> (text: &'static str)
        ensures
            text@ == self.description_text(),
    {
        match self {
            Error::BigEndianElfOnLittle => {
                "Trying to load big-endian binary on little-endian machine"
            },
            Error::CommandLineCopy => "Failed writing command line to guest memory",
            Error::CommandLineOverflow => "Command line overflowed guest memory",
            Error::InvalidElfMagicNumber => "Invalid Elf magic number",
            Error::InvalidProgramHeaderSize => "Invalid program header size",
            Error::InvalidProgramHeaderOffset => "Invalid program header offset",
            Error::InvalidProgramHeaderAddress => "Invalid Program Header Address",
            Error::InvalidEntryAddress => "Invalid entry address",
            Error::InvalidKernelStartAddress => "Invalid kernel start address",
            Error::InitrdImageSizeTooLarge => "Initrd image size too large",
            Error::ReadElfHeader => "Unable to read elf header",
            Error::ReadKernelImage => "Unable to read kernel image",
            Error::ReadProgramHeader => "Unable to read program header",
            Error::ReadInitrdImage => "Unable to read initrd image",
            Error::SeekKernelStart => "Unable to seek to kernel start",
            Error::SeekElfStart => "Unable to seek to elf start",
            Error::SeekProgramHeader => "Unable to seek to program header",
            Error::SeekInitrdImage => "Unable to seek initrd image",
        }
    }

    /// The message shown for the failure: the common prefix, then the
    /// description.
    pub fn message(&self) -> (text: String)
        ensures
            text@ == message_prefix() + self.description_text(),
    {
        let mut text = String::from_str("Kernel Loader Error: ");
        text.append(self.description());
        text
    }
}

} // verus!
