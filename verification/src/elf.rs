//! The two fixed-layout records of a 64-bit ELF image that a loader reads,
//! and their decoding from little-endian bytes.

use vstd::prelude::*;

verus! {

/// The first byte of the magic number that every ELF image begins with.
pub const ELFMAG0: u8 = 0x7f;

/// The second byte of the magic number, the letter E.
pub const ELFMAG1: u8 = 0x45;

/// The third byte of the magic number, the letter L.
pub const ELFMAG2: u8 = 0x4c;

/// The fourth byte of the magic number, the letter F.
pub const ELFMAG3: u8 = 0x46;

/// Index, in the identification bytes, of the byte that names the encoding.
pub const EI_DATA: usize = 5;

/// The encoding byte of a little-endian image.
pub const ELFDATA2LSB: u8 = 1;

/// The type of a program header whose segment is to be loaded.
pub const PT_LOAD: u32 = 1;

/// Size in bytes of the ELF header of a 64-bit image.
pub const EHDR_SIZE: usize = 64;

/// Size in bytes of one program header of a 64-bit image.
pub const PHDR_SIZE: usize = 56;

/// The 16-bit number that two little-endian bytes at `at` stand for.
pub open spec fn le_u16(bytes: Seq<u8>, at: int) -> u16 {
    (bytes[at] as int + 0x100 * (bytes[at + 1] as int)) as u16
}

/// The 32-bit number that four little-endian bytes at `at` stand for.
pub open spec fn le_u32(bytes: Seq<u8>, at: int) -> u32 {
    (le_u16(bytes, at) as int + 0x1_0000 * (le_u16(bytes, at + 2) as int)) as u32
}

/// The 64-bit number that eight little-endian bytes at `at` stand for.
pub open spec fn le_u64(bytes: Seq<u8>, at: int) -> u64 {
    (le_u32(bytes, at) as int + 0x1_0000_0000 * (le_u32(bytes, at + 4) as int)) as u64
}

/// Decodes the two bytes at `at` as a little-endian number.
pub fn read_le_u16(bytes: &[u8], at: usize) -> (value: u16)
    requires
        at + 2 <= bytes.len(),
    ensures
        value == le_u16(bytes@, at as int),
        value as int == bytes@[at as int] as int + 0x100 * (bytes@[at + 1] as int),
{
    let low: u16 = bytes[at] as u16;
    let high: u16 = bytes[at + 1] as u16;
    low + 0x100 * high
}

/// Decodes the four bytes at `at` as a little-endian number.
pub fn read_le_u32(bytes: &[u8], at: usize) -> (value: u32)
    requires
        at + 4 <= bytes.len(),
    ensures
        value == le_u32(bytes@, at as int),
        value as int == le_u16(bytes@, at as int) as int + 0x1_0000 * (le_u16(
            bytes@,
            at + 2,
        ) as int),
{
    let low: u32 = read_le_u16(bytes, at) as u32;
    let high: u32 = read_le_u16(bytes, at + 2) as u32;
    low + 0x1_0000 * high
}

/// Decodes the eight bytes at `at` as a little-endian number.
pub fn read_le_u64(bytes: &[u8], at: usize) -> (value: u64)
    requires
        at + 8 <= bytes.len(),
    ensures
        value == le_u64(bytes@, at as int),
        value as int == le_u32(bytes@, at as int) as int + 0x1_0000_0000 * (le_u32(
            bytes@,
            at + 4,
        ) as int),
{
    let low: u64 = read_le_u32(bytes, at) as u64;
    let high: u64 = read_le_u32(bytes, at + 4) as u64;
    low + 0x1_0000_0000 * high
}

/// The header at the start of a 64-bit ELF image.
#[derive(Clone, Copy, Debug, PartialEq, Eq)]
pub struct ElfHeader {
    /// The identification bytes: the magic number, then class, encoding and
    /// the rest.
    pub e_ident: [u8; 16],
    pub e_type: u16,
    pub e_machine: u16,
    pub e_version: u32,
    /// The address at which execution begins.
    pub e_entry: u64,
    /// Where in the image the program header table begins.
    pub e_phoff: u64,
    pub e_shoff: u64,
    pub e_flags: u32,
    pub e_ehsize: u16,
    /// The size of one entry of the program header table.
    pub e_phentsize: u16,
    /// The number of entries of the program header table.
    pub e_phnum: u16,
    pub e_shentsize: u16,
    pub e_shnum: u16,
    pub e_shstrndx: u16,
}

/// One entry of the program header table of a 64-bit ELF image.
#[derive(Clone, Copy, Debug, PartialEq, Eq, Structural)]
pub struct ProgramHeader {
    /// What the entry describes; [`PT_LOAD`] for a segment to load.
    pub p_type: u32,
    pub p_flags: u32,
    /// Where in the image the segment's bytes begin.
    pub p_offset: u64,
    pub p_vaddr: u64,
    /// The physical address of the segment.
    pub p_paddr: u64,
    /// How many bytes of the segment the image holds.
    pub p_filesz: u64,
    /// How many bytes the segment takes in memory.
    pub p_memsz: u64,
    pub p_align: u64,
}

/// Whether `count` bytes can be read from position `at` of a source that
/// holds `len` bytes. Nothing at all can be read from any position.
pub open spec fn readable(len: nat, at: int, count: nat) -> bool {
    count == 0 || at + count <= len
}

/// The ELF header that the 64 bytes from position `at` stand for.
pub open spec fn decode_elf_header(bytes: Seq<u8>, at: int) -> ElfHeader {
    ElfHeader {
        e_ident: decode_ident(bytes, at),
        e_type: le_u16(bytes, at + 16),
        e_machine: le_u16(bytes, at + 18),
        e_version: le_u32(bytes, at + 20),
        e_entry: le_u64(bytes, at + 24),
        e_phoff: le_u64(bytes, at + 32),
        e_shoff: le_u64(bytes, at + 40),
        e_flags: le_u32(bytes, at + 48),
        e_ehsize: le_u16(bytes, at + 52),
        e_phentsize: le_u16(bytes, at + 54),
        e_phnum: le_u16(bytes, at + 56),
        e_shentsize: le_u16(bytes, at + 58),
        e_shnum: le_u16(bytes, at + 60),
        e_shstrndx: le_u16(bytes, at + 62),
    }
}

/// The identification bytes of the header at position `at`.
pub open spec fn decode_ident(bytes: Seq<u8>, at: int) -> [u8; 16] {
    [
        bytes[at],
        bytes[at + 1],
        bytes[at + 2],
        bytes[at + 3],
        bytes[at + 4],
        bytes[at + 5],
        bytes[at + 6],
        bytes[at + 7],
        bytes[at + 8],
        bytes[at + 9],
        bytes[at + 10],
        bytes[at + 11],
        bytes[at + 12],
        bytes[at + 13],
        bytes[at + 14],
        bytes[at + 15],
    ]
}

/// The program header that the 56 bytes from position `at` stand for.
pub open spec fn decode_program_header(bytes: Seq<u8>, at: int) -> ProgramHeader {
    ProgramHeader {
        p_type: le_u32(bytes, at),
        p_flags: le_u32(bytes, at + 4),
        p_offset: le_u64(bytes, at + 8),
        p_vaddr: le_u64(bytes, at + 16),
        p_paddr: le_u64(bytes, at + 24),
        p_filesz: le_u64(bytes, at + 32),
        p_memsz: le_u64(bytes, at + 40),
        p_align: le_u64(bytes, at + 48),
    }
}

/// The table of `count` program headers that begins at position `at`.
pub open spec fn decode_program_headers(bytes: Seq<u8>, at: int, count: nat) -> Seq<
    ProgramHeader,
> {
    Seq::new(count, |i: int| decode_program_header(bytes, at + PHDR_SIZE * i))
}

/// Reads one ELF header from position `at` of `bytes`, or nothing where
/// fewer than 64 bytes follow that position.
pub fn read_elf_header(bytes: &[u8], at: u64) -> (header: Option<ElfHeader>)
    ensures
        header.is_some() == readable(bytes@.len(), at as int, EHDR_SIZE as nat),
        header matches Some(h) ==> h == decode_elf_header(bytes@, at as int),
{
    let len = bytes.len();
    if at > len as u64 || len as u64 - at < EHDR_SIZE as u64 {
        return None;
    }
    let at: usize = at as usize;
    let e_ident: [u8; 16] = [
        bytes[at],
        bytes[at + 1],
        bytes[at + 2],
        bytes[at + 3],
        bytes[at + 4],
        bytes[at + 5],
        bytes[at + 6],
        bytes[at + 7],
        bytes[at + 8],
        bytes[at + 9],
        bytes[at + 10],
        bytes[at + 11],
        bytes[at + 12],
        bytes[at + 13],
        bytes[at + 14],
        bytes[at + 15],
    ];
    assert(e_ident =~= decode_ident(bytes@, at as int));
    Some(
        ElfHeader {
            e_ident,
            e_type: read_le_u16(bytes, at + 16),
            e_machine: read_le_u16(bytes, at + 18),
            e_version: read_le_u32(bytes, at + 20),
            e_entry: read_le_u64(bytes, at + 24),
            e_phoff: read_le_u64(bytes, at + 32),
            e_shoff: read_le_u64(bytes, at + 40),
            e_flags: read_le_u32(bytes, at + 48),
            e_ehsize: read_le_u16(bytes, at + 52),
            e_phentsize: read_le_u16(bytes, at + 54),
            e_phnum: read_le_u16(bytes, at + 56),
            e_shentsize: read_le_u16(bytes, at + 58),
            e_shnum: read_le_u16(bytes, at + 60),
            e_shstrndx: read_le_u16(bytes, at + 62),
        },
    )
}

/// Decodes the program header in the 56 bytes from position `at`.
fn read_program_header(bytes: &[u8], at: usize) -> (header: ProgramHeader)
    requires
        at + PHDR_SIZE <= bytes.len(),
    ensures
        header == decode_program_header(bytes@, at as int),
{
    ProgramHeader {
        p_type: read_le_u32(bytes, at),
        p_flags: read_le_u32(bytes, at + 4),
        p_offset: read_le_u64(bytes, at + 8),
        p_vaddr: read_le_u64(bytes, at + 16),
        p_paddr: read_le_u64(bytes, at + 24),
        p_filesz: read_le_u64(bytes, at + 32),
        p_memsz: read_le_u64(bytes, at + 40),
        p_align: read_le_u64(bytes, at + 48),
    }
}

/// Reads `count` consecutive program headers from position `at` of `bytes`,
/// in the order of the image, or nothing where the bytes end before the
/// last of them.
pub fn read_program_headers(bytes: &[u8], at: u64, count: u16) -> (headers: Option<
    Vec<ProgramHeader>,
>)
    ensures
        headers.is_some() == readable(bytes@.len(), at as int, (PHDR_SIZE * count) as nat),
        headers matches Some(v) ==> v@ == decode_program_headers(
            bytes@,
            at as int,
            count as nat,
        ),
{
    let mut headers: Vec<ProgramHeader> = Vec::new();
    if count == 0 {
        assert(headers@ =~= decode_program_headers(bytes@, at as int, 0));
        return Some(headers);
    }
    let len = bytes.len();
    let record: u64 = PHDR_SIZE as u64;
    let size: u64 = record * (count as u64);
    if at > len as u64 || len as u64 - at < size {
        return None;
    }
    let start: usize = at as usize;
    let mut index: usize = 0;
    while index < count as usize
        invariant
            index <= count,
            start == at,
            start + PHDR_SIZE * count <= bytes.len(),
            headers@ == decode_program_headers(bytes@, at as int, index as nat),
        decreases count - index,
    {
        let header = read_program_header(bytes, start + PHDR_SIZE * index);
        headers.push(header);
        index = index + 1;
        assert(headers@ =~= decode_program_headers(bytes@, at as int, index as nat));
    }
    Some(headers)
}

} // verus!
