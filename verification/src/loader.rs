//! Loading of an ELF kernel image: the checks on its header, the placement
//! of its segments, and their copy into guest memory.

use crate::elf::{
    decode_elf_header, decode_program_headers, read_elf_header, read_program_headers, readable,
    ElfHeader, ProgramHeader, EHDR_SIZE, EI_DATA, ELFDATA2LSB, ELFMAG0, ELFMAG1, ELFMAG2,
    ELFMAG3, PHDR_SIZE, PT_LOAD,
};
use crate::error::Error;
use crate::guest::{copied_len, guest_bytes, mapped_run, overlay, read_exact_from};
use crate::segments::{
    is_segment_end, lemma_end_is_highest, lemma_load_segments_frame, lemma_segments_in_place,
    segment_in_place,
};
use vm_memory::GuestMemoryMmap;
use vstd::prelude::*;

verus! {

/// The sum of two addresses in 64 bits: on overflow it wraps around.
pub open spec fn wrapped_sum(a: u64, b: u64) -> u64 {
    if a + b > u64::MAX {
        (a + b - 0x1_0000_0000_0000_0000) as u64
    } else {
        (a + b) as u64
    }
}

/// Whether the header begins with the ELF magic number.
pub open spec fn has_elf_magic(header: ElfHeader) -> bool {
    &&& header.e_ident[0] == ELFMAG0
    &&& header.e_ident[1] == ELFMAG1
    &&& header.e_ident[2] == ELFMAG2
    &&& header.e_ident[3] == ELFMAG3
}

/// The first of the checks on a header that fails, if one does: the magic
/// number, the encoding, the size of a program header, the position of the
/// program header table, and the entry point against the lowest address
/// allowed, in this order.
pub open spec fn header_fault(header: ElfHeader, lowest: Option<u64>) -> Option<Error> {
    if !has_elf_magic(header) {
        Some(Error::InvalidElfMagicNumber)
    } else if header.e_ident[EI_DATA as int] != ELFDATA2LSB {
        Some(Error::BigEndianElfOnLittle)
    } else if header.e_phentsize != PHDR_SIZE {
        Some(Error::InvalidProgramHeaderSize)
    } else if header.e_phoff < EHDR_SIZE {
        Some(Error::InvalidProgramHeaderOffset)
    } else if lowest is Some && header.e_entry < lowest->0 {
        Some(Error::InvalidEntryAddress)
    } else {
        None
    }
}

/// Checks a header, and reports the first check that fails.
pub fn check_header(header: &ElfHeader, lowest: Option<u64>) -> (checked: Result<(), Error>)
    ensures
        checked == match header_fault(*header, lowest) {
            Some(fault) => Err::<(), Error>(fault),
            None => Ok(()),
        },
{
    if header.e_ident[0] != ELFMAG0 || header.e_ident[1] != ELFMAG1 || header.e_ident[2]
        != ELFMAG2 || header.e_ident[3] != ELFMAG3 {
        return Err(Error::InvalidElfMagicNumber);
    }
    if header.e_ident[EI_DATA] != ELFDATA2LSB {
        return Err(Error::BigEndianElfOnLittle);
    }
    if header.e_phentsize as usize != PHDR_SIZE {
        return Err(Error::InvalidProgramHeaderSize);
    }
    if header.e_phoff < EHDR_SIZE as u64 {
        return Err(Error::InvalidProgramHeaderOffset);
    }
    if let Some(low) = lowest {
        if header.e_entry < low {
            return Err(Error::InvalidEntryAddress);
        }
    }
    Ok(())
}

/// The address at which execution begins: the entry point of the header,
/// moved by the base where there is one.
pub open spec fn entry_address(header: ElfHeader, base: Option<u64>) -> u64 {
    match base {
        Some(start) => wrapped_sum(start, header.e_entry),
        None => header.e_entry,
    }
}

/// Whether a program header names a segment that is copied to memory.
pub open spec fn is_loadable(phdr: ProgramHeader) -> bool {
    phdr.p_type == PT_LOAD && phdr.p_filesz != 0
}

/// Where in guest memory a segment goes: at its physical address, moved by
/// the base where there is one; nowhere if that leaves the address space.
pub open spec fn segment_addr(base: Option<u64>, phdr: ProgramHeader) -> Option<u64> {
    match base {
        Some(start) => if start + phdr.p_paddr > u64::MAX {
            None
        } else {
            Some((start + phdr.p_paddr) as u64)
        },
        None => Some(phdr.p_paddr),
    }
}

/// Where the segment of `phdr` ends: its address plus its size in memory,
/// wrapped around in 64 bits. The size in memory counts, not that in the
/// image: what a segment keeps for itself past its bytes is part of it.
pub open spec fn segment_end(base: Option<u64>, phdr: ProgramHeader) -> u64 {
    wrapped_sum(segment_addr(base, phdr)->0, phdr.p_memsz)
}

/// The higher of two addresses.
pub open spec fn higher(a: u64, b: u64) -> u64 {
    if a >= b {
        a
    } else {
        b
    }
}

/// The bytes of the image from position `offset` to its end; none from a
/// position after the end.
pub open spec fn image_from(image: Seq<u8>, offset: u64) -> Seq<u8> {
    if offset >= image.len() {
        Seq::empty()
    } else {
        image.subrange(offset as int, image.len() as int)
    }
}

/// Guest memory after some segments were handled, and either the highest
/// address at which one of them ends or the failure that stopped the work.
pub struct Loaded {
    pub memory: Map<int, u8>,
    pub end: Result<u64, Error>,
}

/// What handling one program header does to `memory` and to `end`, the
/// highest end of a segment so far.
///
/// A header that names nothing to copy changes neither. The bytes of any
/// other are copied from its position in the image to its address, as far
/// as the image and the mapped addresses go, and it is a failure if that is
/// not the whole segment. The new end is the higher of `end` and the end of
/// this segment.
pub open spec fn load_segment_outcome(
    image: Seq<u8>,
    base: Option<u64>,
    phdr: ProgramHeader,
    memory: Map<int, u8>,
    end: u64,
) -> Loaded {
    if !is_loadable(phdr) {
        Loaded { memory, end: Ok(end) }
    } else {
        match segment_addr(base, phdr) {
            None => Loaded { memory, end: Err(Error::InvalidProgramHeaderAddress) },
            Some(addr) => {
                let source = image_from(image, phdr.p_offset);
                let copied = copied_len(
                    memory.dom(),
                    addr as int,
                    source.len(),
                    phdr.p_filesz as nat,
                );
                Loaded {
                    memory: overlay(memory, addr as int, source.take(copied as int)),
                    end: if copied == phdr.p_filesz {
                        Ok(higher(end, segment_end(base, phdr)))
                    } else {
                        Err(Error::ReadKernelImage)
                    },
                }
            },
        }
    }
}

/// What handling the program headers from index `from` on does, one after
/// the other in the order of the table, up to the first failure.
pub open spec fn load_segments_outcome(
    image: Seq<u8>,
    base: Option<u64>,
    phdrs: Seq<ProgramHeader>,
    from: int,
    memory: Map<int, u8>,
    end: u64,
) -> Loaded
    decreases phdrs.len() - from,
{
    if from < 0 || from >= phdrs.len() {
        Loaded { memory, end: Ok(end) }
    } else {
        let step = load_segment_outcome(image, base, phdrs[from], memory, end);
        match step.end {
            Ok(next) => load_segments_outcome(image, base, phdrs, from + 1, step.memory, next),
            Err(_) => step,
        }
    }
}

/// The header that `image` begins with.
pub open spec fn image_header(image: Seq<u8>) -> ElfHeader {
    decode_elf_header(image, 0)
}

/// The table of program headers that the header of `image` names.
pub open spec fn program_headers(image: Seq<u8>) -> Seq<ProgramHeader> {
    let header = image_header(image);
    decode_program_headers(image, header.e_phoff as int, header.e_phnum as nat)
}

/// Guest memory after a kernel was loaded, and what loading it returned.
pub struct KernelLoaded {
    pub memory: Map<int, u8>,
    pub result: Result<(u64, u64), Error>,
}

/// What loading the image `image` into `memory` does.
///
/// The header is read from the start of the image and checked; the table
/// of program headers is read from where the header says; the segments are
/// handled in the order of the table. Nothing is written before the first
/// segment is copied.
pub open spec fn load_kernel_outcome(
    memory: Map<int, u8>,
    base: Option<u64>,
    image: Seq<u8>,
    lowest: Option<u64>,
) -> KernelLoaded {
    let header = image_header(image);
    if !readable(image.len(), 0, EHDR_SIZE as nat) {
        KernelLoaded { memory, result: Err(Error::ReadElfHeader) }
    } else if header_fault(header, lowest) is Some {
        KernelLoaded { memory, result: Err(header_fault(header, lowest)->0) }
    } else if !readable(image.len(), header.e_phoff as int, (PHDR_SIZE * header.e_phnum) as nat) {
        KernelLoaded { memory, result: Err(Error::ReadProgramHeader) }
    } else {
        let loaded = load_segments_outcome(image, base, program_headers(image), 0, memory, 0);
        KernelLoaded {
            memory: loaded.memory,
            result: match loaded.end {
                Ok(end) => Ok((entry_address(header, base), end)),
                Err(fault) => Err(fault),
            },
        }
    }
}

/// A run of mapped addresses among fewer addresses is the same run, cut
/// at their number.
proof fn lemma_mapped_run_cut(mapped: Set<int>, addr: int, fewer: nat, count: nat)
    requires
        fewer <= count,
    ensures
        mapped_run(mapped, addr, fewer) == if mapped_run(mapped, addr, count) <= fewer {
            mapped_run(mapped, addr, count)
        } else {
            fewer
        },
    decreases fewer,
{
    if fewer != 0 && mapped.contains(addr) {
        lemma_mapped_run_cut(mapped, addr + 1, (fewer - 1) as nat, (count - 1) as nat);
    }
}

/// Handles one program header: copies its segment, if it names one, from
/// the image to guest memory, and gives the highest end of a segment so
/// far.
fn load_segment(
    guest_mem: &mut GuestMemoryMmap,
    kernel_start: Option<u64>,
    kernel_image: &[u8],
    phdr: &ProgramHeader,
    kernel_end: u64,
) -> (end: Result<u64, Error>)
    ensures
        end == load_segment_outcome(
            kernel_image@,
            kernel_start,
            *phdr,
            guest_bytes(*old(guest_mem)),
            kernel_end,
        ).end,
        guest_bytes(*final(guest_mem)) == load_segment_outcome(
            kernel_image@,
            kernel_start,
            *phdr,
            guest_bytes(*old(guest_mem)),
            kernel_end,
        ).memory,
{
    if phdr.p_type != PT_LOAD || phdr.p_filesz == 0 {
        return Ok(kernel_end);
    }
    let len = kernel_image.len();
    let position: usize = if phdr.p_offset >= len as u64 {
        len
    } else {
        phdr.p_offset as usize
    };
    let source = &kernel_image[position..len];
    assert(source@ =~= image_from(kernel_image@, phdr.p_offset));
    let mem_offset = match kernel_start {
        Some(start) => match start.checked_add(phdr.p_paddr) {
            Some(addr) => addr,
            None => {
                return Err(Error::InvalidProgramHeaderAddress);
            },
        },
        None => phdr.p_paddr,
    };
    let ghost mapped = guest_bytes(*guest_mem).dom();
    if phdr.p_filesz > usize::MAX as u64 {
        // More than the image can hold: what it holds is still copied.
        proof {
            lemma_mapped_run_cut(
                mapped,
                mem_offset as int,
                usize::MAX as nat,
                phdr.p_filesz as nat,
            );
        }
        let _ = read_exact_from(guest_mem, mem_offset, source, usize::MAX);
        return Err(Error::ReadKernelImage);
    }
    match read_exact_from(guest_mem, mem_offset, source, phdr.p_filesz as usize) {
        Ok(()) => {
            let segment_end = mem_offset.wrapping_add(phdr.p_memsz);
            if segment_end > kernel_end {
                Ok(segment_end)
            } else {
                Ok(kernel_end)
            }
        },
        Err(_) => Err(Error::ReadKernelImage),
    }
}

/// The loader of kernels in the ELF format.
pub struct ElfLoader;

impl ElfLoader {
    /// Loads the kernel in `kernel_image`, a 64-bit little-endian ELF image,
    /// into guest memory.
    ///
    /// Each segment goes to its physical address, or to that address past
    /// `kernel_start` where one is given. The entry point must not lie below
    /// `lowest_kernel_start` where one is given.
    ///
    /// Returns the address at which execution begins, and the highest
    /// address at which a copied segment ends, for what is to be placed after
    /// the kernel: the highest, over the segments, of the address of a
    /// segment plus its size in memory, or 0 where no segment was copied.
    /// The sum of base and entry point, and that of address and size, wrap
    /// around in 64 bits.
    #[verifier::loop_isolation(false)]
    pub fn load_kernel(
        guest_mem: &mut GuestMemoryMmap,
        kernel_start: Option<u64>,
        kernel_image: &[u8],
        lowest_kernel_start: Option<u64>,
    ) -> (result: Result<(u64, u64), Error>)
        ensures
            result == load_kernel_outcome(
                guest_bytes(*old(guest_mem)),
                kernel_start,
                kernel_image@,
                lowest_kernel_start,
            ).result,
            guest_bytes(*final(guest_mem)) == load_kernel_outcome(
                guest_bytes(*old(guest_mem)),
                kernel_start,
                kernel_image@,
                lowest_kernel_start,
            ).memory,
            // The same addresses are mapped afterwards.
            guest_bytes(*final(guest_mem)).dom() == guest_bytes(*old(guest_mem)).dom(),
            // Without a base the entry point is returned as the header has it.
            kernel_start is None && result is Ok ==> result->Ok_0.0 == image_header(
                kernel_image@,
            ).e_entry,
            // With a base it is returned moved by the base.
            kernel_start is Some && result is Ok ==> result->Ok_0.0 == wrapped_sum(
                kernel_start->0,
                image_header(kernel_image@).e_entry,
            ),
            kernel_start is Some && result is Ok && kernel_start->0 + image_header(
                kernel_image@,
            ).e_entry <= u64::MAX ==> result->Ok_0.0 == kernel_start->0 + image_header(
                kernel_image@,
            ).e_entry,
            // The bytes of every segment are in memory as they are in the image.
            result is Ok ==> forall|i: int|
                0 <= i < program_headers(kernel_image@).len() ==> segment_in_place(
                    kernel_image@,
                    kernel_start,
                    program_headers(kernel_image@),
                    i,
                    guest_bytes(*final(guest_mem)),
                ),
            // The end that is returned is the highest end of a segment that
            // the table names for copying, whatever their order, and 0 where
            // it names none.
            result is Ok ==> forall|i: int|
                0 <= i < program_headers(kernel_image@).len() && is_loadable(
                    program_headers(kernel_image@)[i],
                ) ==> segment_end(kernel_start, #[trigger] program_headers(kernel_image@)[i])
                    <= result->Ok_0.1,
            result is Ok ==> result->Ok_0.1 == 0 || is_segment_end(
                kernel_start,
                program_headers(kernel_image@),
                0,
                result->Ok_0.1,
            ),
            result is Ok && (forall|i: int|
                0 <= i < program_headers(kernel_image@).len() ==> !is_loadable(
                    #[trigger] program_headers(kernel_image@)[i],
                )) ==> result->Ok_0.1 == 0,
            // An image too short for its header is refused, and nothing is
            // written.
            kernel_image@.len() < EHDR_SIZE ==> result == Err::<(u64, u64), Error>(
                Error::ReadElfHeader,
            ) && guest_bytes(*final(guest_mem)) == guest_bytes(*old(guest_mem)),
            // A header that fails a check is refused for the first check that
            // it fails, and nothing is written.
            kernel_image@.len() >= EHDR_SIZE && header_fault(
                image_header(kernel_image@),
                lowest_kernel_start,
            ) is Some ==> result == Err::<(u64, u64), Error>(
                header_fault(image_header(kernel_image@), lowest_kernel_start)->0,
            ) && guest_bytes(*final(guest_mem)) == guest_bytes(*old(guest_mem)),
            // So for a magic number that is not that of ELF,
            kernel_image@.len() >= EHDR_SIZE && !has_elf_magic(image_header(kernel_image@))
                ==> result == Err::<(u64, u64), Error>(Error::InvalidElfMagicNumber),
            // for an encoding that is not little-endian,
            kernel_image@.len() >= EHDR_SIZE && has_elf_magic(image_header(kernel_image@))
                && image_header(kernel_image@).e_ident[EI_DATA as int] != ELFDATA2LSB ==> result
                == Err::<(u64, u64), Error>(Error::BigEndianElfOnLittle),
            // for a table of program headers that begins inside the header,
            kernel_image@.len() >= EHDR_SIZE && header_fault(image_header(kernel_image@), None)
                == Some(Error::InvalidProgramHeaderOffset) ==> result == Err::<(u64, u64), Error>(
                Error::InvalidProgramHeaderOffset,
            ),
            // and for an entry point below the lowest address allowed.
            kernel_image@.len() >= EHDR_SIZE && header_fault(image_header(kernel_image@), None)
                is None && lowest_kernel_start is Some && image_header(kernel_image@).e_entry
                < lowest_kernel_start->0 ==> result == Err::<(u64, u64), Error>(
                Error::InvalidEntryAddress,
            ) && guest_bytes(*final(guest_mem)) == guest_bytes(*old(guest_mem)),
            // An image too short for its table is refused, and nothing is
            // written.
            result == Err::<(u64, u64), Error>(Error::ReadProgramHeader) ==> guest_bytes(
                *final(guest_mem),
            ) == guest_bytes(*old(guest_mem)),
    {
        let header = match read_elf_header(kernel_image, 0) {
            Some(header) => header,
            None => {
                return Err(Error::ReadElfHeader);
            },
        };
        match check_header(&header, lowest_kernel_start) {
            Ok(()) => {},
            Err(fault) => {
                return Err(fault);
            },
        }
        let kernel_loaded_addr = match kernel_start {
            Some(start) => start.wrapping_add(header.e_entry),
            None => header.e_entry,
        };
        let phdrs = match read_program_headers(kernel_image, header.e_phoff, header.e_phnum) {
            Some(phdrs) => phdrs,
            None => {
                return Err(Error::ReadProgramHeader);
            },
        };
        let ghost before = guest_bytes(*guest_mem);
        proof {
            lemma_load_segments_frame(kernel_image@, kernel_start, phdrs@, 0, before, 0);
        }
        let mut kernel_end: u64 = 0;
        let mut index: usize = 0;
        while index < phdrs.len()
            invariant
                index <= phdrs@.len(),
                load_segments_outcome(
                    kernel_image@,
                    kernel_start,
                    phdrs@,
                    index as int,
                    guest_bytes(*guest_mem),
                    kernel_end,
                ) == load_segments_outcome(kernel_image@, kernel_start, phdrs@, 0, before, 0),
            decreases phdrs@.len() - index,
        {
            match load_segment(guest_mem, kernel_start, kernel_image, &phdrs[index], kernel_end) {
                Ok(end) => {
                    kernel_end = end;
                },
                Err(fault) => {
                    return Err(fault);
                },
            }
            index = index + 1;
        }
        proof {
            lemma_end_is_highest(kernel_image@, kernel_start, phdrs@, 0, before, 0);
            assert forall|i: int| 0 <= i < phdrs@.len() implies segment_in_place(
                kernel_image@,
                kernel_start,
                phdrs@,
                i,
                guest_bytes(*guest_mem),
            ) by {
                lemma_segments_in_place(kernel_image@, kernel_start, phdrs@, 0, i, before, 0);
            }
        }
        Ok((kernel_loaded_addr, kernel_end))
    }
}

} // verus!
