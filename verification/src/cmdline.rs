//! The kernel command line: a byte string that ends in its only nul byte,
//! and its copy into guest memory.

use crate::error::Error;
use crate::guest::{
    guest_bytes, last_addr, last_mapped, lemma_last_mapped_unique, lemma_mapped_run,
    lemma_mapped_run_full, mapped_run, overlay, write_slice,
};
use vm_memory::GuestMemoryMmap;
use vstd::prelude::*;

verus! {

/// Whether `bytes` is a string with its terminator: the last byte is nul and
/// no other is.
pub open spec fn is_nul_terminated(bytes: Seq<u8>) -> bool {
    &&& bytes.len() > 0
    &&& bytes[bytes.len() - 1] == 0
    &&& forall|i: int| 0 <= i < bytes.len() - 1 ==> bytes[i] != 0
}

/// A command line together with the nul byte that ends it.
#[derive(Debug)]
pub struct CommandLine {
    bytes: Vec<u8>,
}

impl View for CommandLine {
    type V = Seq<u8>;

    /// The bytes of the command line, the terminator included.
    closed spec fn view(&self) -> Seq<u8> {
        self.bytes@
    }
}

impl CommandLine {
    #[verifier::type_invariant]
    spec fn well_formed(self) -> bool {
        is_nul_terminated(self.bytes@)
    }

    /// Takes `bytes` as a command line where they end in a nul byte and hold
    /// no other; gives nothing where they do not.
    pub fn from_bytes_with_nul(bytes: &[u8]) -> (line: Option<CommandLine>)
        ensures
            line.is_some() == is_nul_terminated(bytes@),
            line matches Some(l) ==> l@ == bytes@,
    {
        let len = bytes.len();
        if len == 0 || bytes[len - 1] != 0 {
            return None;
        }
        let mut copy: Vec<u8> = Vec::new();
        let mut index: usize = 0;
        while index < len
            invariant
                len == bytes.len(),
                len > 0,
                bytes@[len - 1] == 0,
                index <= len,
                copy@ == bytes@.take(index as int),
                forall|i: int| 0 <= i < index && i < len - 1 ==> bytes@[i] != 0,
            decreases len - index,
        {
            let byte = bytes[index];
            if byte == 0 && index < len - 1 {
                return None;
            }
            copy.push(byte);
            index = index + 1;
            assert(copy@ =~= bytes@.take(index as int));
        }
        assert(copy@ =~= bytes@);
        Some(CommandLine { bytes: copy })
    }

    /// The bytes of the command line, the terminator included.
    pub fn to_bytes_with_nul(&self) -> (bytes: &[u8])
        ensures
            bytes@ == self@,
            is_nul_terminated(self@),
    {
        proof {
            use_type_invariant(self);
        }
        self.bytes.as_slice()
    }

    /// The number of bytes before the terminator.
    pub fn len(&self) -> (len: usize)
        ensures
            len == self@.len() - 1,
            len < usize::MAX,
            is_nul_terminated(self@),
    {
        proof {
            use_type_invariant(self);
        }
        self.bytes.len() - 1
    }
}

/// What [`load_cmdline`] returns for a command line of `line` bytes, the
/// terminator among them, at `addr` of a memory that maps `mapped`.
pub open spec fn cmdline_result(mapped: Set<int>, addr: u64, line: Seq<u8>) -> Result<(), Error> {
    if line.len() <= 1 {
        Ok(())
    } else if addr + line.len() > u64::MAX || addr + line.len() > last_mapped(mapped) + 1 {
        Err(Error::CommandLineOverflow)
    } else if mapped_run(mapped, addr as int, line.len()) < line.len() {
        Err(Error::CommandLineCopy)
    } else {
        Ok(())
    }
}

/// What [`load_cmdline`] leaves in memory: the bytes that were written
/// before the copy ended, over what was there.
pub open spec fn cmdline_memory(memory: Map<int, u8>, addr: u64, line: Seq<u8>) -> Map<int, u8> {
    if line.len() <= 1 || cmdline_result(memory.dom(), addr, line) == Err::<(), Error>(
        Error::CommandLineOverflow,
    ) {
        memory
    } else {
        overlay(
            memory,
            addr as int,
            line.take(mapped_run(memory.dom(), addr as int, line.len()) as int),
        )
    }
}

/// In a memory without a gap between `addr` and its highest address, a
/// command line of more than its terminator is written whole where it ends
/// at or before the end of memory, the end itself included, and is refused
/// as overflowing where it ends after it, be it by one byte.
pub proof fn lemma_cmdline_fits_up_to_end(mapped: Set<int>, addr: u64, line: Seq<u8>)
    requires
        line.len() > 1,
        forall|a: int| addr <= a <= last_mapped(mapped) ==> mapped.contains(a),
    ensures
        addr + line.len() <= last_mapped(mapped) + 1 && addr + line.len() <= u64::MAX
            ==> cmdline_result(mapped, addr, line) == Ok::<(), Error>(()),
        addr + line.len() > last_mapped(mapped) + 1 ==> cmdline_result(mapped, addr, line) == Err::<
            (),
            Error,
        >(Error::CommandLineOverflow),
{
    if addr + line.len() <= last_mapped(mapped) + 1 {
        lemma_mapped_run_full(mapped, addr as int, line.len());
    }
}

/// Writes the command line, with its terminator, to guest memory at
/// `guest_addr`.
///
/// An empty command line is not written at all. Any other must end at or
/// before the end of guest memory, the address after the highest mapped
/// one: else it is refused before anything is written. Where guest memory
/// then stops the write at an address that is not mapped, the bytes before
/// that address stay written.
pub fn load_cmdline(
    guest_mem: &mut GuestMemoryMmap,
    guest_addr: u64,
    cmdline: &CommandLine,
) -> (result: Result<(), Error>)
    ensures
        result == cmdline_result(guest_bytes(*old(guest_mem)).dom(), guest_addr, cmdline@),
        guest_bytes(*final(guest_mem)) == cmdline_memory(
            guest_bytes(*old(guest_mem)),
            guest_addr,
            cmdline@,
        ),
        guest_bytes(*final(guest_mem)).dom() == guest_bytes(*old(guest_mem)).dom(),
        // An empty command line is accepted and written nowhere.
        cmdline@.len() == 1 ==> result.is_ok() && guest_bytes(*final(guest_mem)) == guest_bytes(
            *old(guest_mem),
        ),
{
    let len = cmdline.len();
    if len == 0 {
        return Ok(());
    }
    let end = match guest_addr.checked_add(len as u64 + 1) {
        Some(end) => end,
        None => {
            return Err(Error::CommandLineOverflow);
        },
    };
    let last = last_addr(guest_mem);
    proof {
        lemma_last_mapped_unique(guest_bytes(*guest_mem).dom(), last as int);
        lemma_mapped_run(guest_bytes(*guest_mem).dom(), guest_addr as int, cmdline@.len());
    }
    if end - 1 > last {
        return Err(Error::CommandLineOverflow);
    }
    match write_slice(guest_mem, cmdline.to_bytes_with_nul(), guest_addr) {
        Ok(()) => Ok(()),
        Err(_) => Err(Error::CommandLineCopy),
    }
}

} // verus!
