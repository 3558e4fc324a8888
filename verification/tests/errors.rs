use kernel_loader::Error;

#[test]
fn descriptions() {
    assert_eq!(
        Error::BigEndianElfOnLittle.description(),
        "Trying to load big-endian binary on little-endian machine"
    );
    assert_eq!(
        Error::CommandLineCopy.description(),
        "Failed writing command line to guest memory"
    );
    assert_eq!(
        Error::CommandLineOverflow.description(),
        "Command line overflowed guest memory"
    );
    assert_eq!(Error::InvalidElfMagicNumber.description(), "Invalid Elf magic number");
    assert_eq!(
        Error::InvalidProgramHeaderSize.description(),
        "Invalid program header size"
    );
    assert_eq!(
        Error::InvalidProgramHeaderOffset.description(),
        "Invalid program header offset"
    );
    assert_eq!(
        Error::InvalidProgramHeaderAddress.description(),
        "Invalid Program Header Address"
    );
    assert_eq!(Error::InvalidEntryAddress.description(), "Invalid entry address");
    assert_eq!(
        Error::InvalidKernelStartAddress.description(),
        "Invalid kernel start address"
    );
    assert_eq!(
        Error::InitrdImageSizeTooLarge.description(),
        "Initrd image size too large"
    );
    assert_eq!(Error::ReadElfHeader.description(), "Unable to read elf header");
    assert_eq!(Error::ReadKernelImage.description(), "Unable to read kernel image");
    assert_eq!(
        Error::ReadProgramHeader.description(),
        "Unable to read program header"
    );
    assert_eq!(Error::ReadInitrdImage.description(), "Unable to read initrd image");
    assert_eq!(
        Error::SeekKernelStart.description(),
        "Unable to seek to kernel start"
    );
    assert_eq!(Error::SeekElfStart.description(), "Unable to seek to elf start");
    assert_eq!(
        Error::SeekProgramHeader.description(),
        "Unable to seek to program header"
    );
    assert_eq!(Error::SeekInitrdImage.description(), "Unable to seek initrd image");
}

#[test]
fn messages() {
    assert_eq!(
        Error::InvalidElfMagicNumber.message(),
        "Kernel Loader Error: Invalid Elf magic number"
    );
    assert_eq!(
        Error::CommandLineOverflow.message(),
        "Kernel Loader Error: Command line overflowed guest memory"
    );
    assert_eq!(
        Error::SeekInitrdImage.message(),
        format!("Kernel Loader Error: {}", Error::SeekInitrdImage.description())
    );
}

#[test]
fn errors_compare_by_kind() {
    assert_eq!(Error::ReadElfHeader, Error::ReadElfHeader);
    assert_ne!(Error::ReadElfHeader, Error::ReadKernelImage);
    assert_eq!(format!("{:?}", Error::CommandLineCopy), "CommandLineCopy");
}
