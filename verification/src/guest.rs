//! Guest physical memory as this library sees it: the bytes that the
//! regions of a `GuestMemoryMmap` hold, and the three operations of it that
//! loading needs.
//!
//! A `GuestMemoryMmap` writes through a shared reference. Here a write takes
//! the memory by `&mut`, so that a contract can tell the bytes before a call
//! from those after it. What is stated of them holds while nothing else
//! writes to the same regions during the call.

use vm_memory::{Bytes, GuestAddress, GuestMemory, GuestMemoryError, GuestMemoryMmap};
use vstd::prelude::*;

verus! {

/// `GuestMemoryMmap` of `vm_memory`: the memory of a guest, as regions that
/// are mapped into this process. Nothing inside it is seen here.
#[verifier::external_type_specification]
#[verifier::external_body]
pub struct ExGuestMemoryMmap(GuestMemoryMmap);

/// `GuestMemoryError` of `vm_memory`: why an access to guest memory failed.
/// It is taken from a call and never looked into.
#[verifier::external_type_specification]
#[verifier::external_body]
pub struct ExGuestMemoryError(GuestMemoryError);

/// What a guest memory holds: the byte at each guest physical address that
/// one of its regions maps. The domain is the set of mapped addresses. The
/// three functions below say all that is taken to be known of it.
pub uninterp spec fn guest_bytes(mem: GuestMemoryMmap) -> Map<int, u8>;

/// How many of the `count` addresses from `addr` upwards are mapped before
/// the first one that is not.
pub open spec fn mapped_run(mapped: Set<int>, addr: int, count: nat) -> nat
    decreases count,
{
    if count == 0 || !mapped.contains(addr) {
        0
    } else {
        1 + mapped_run(mapped, addr + 1, (count - 1) as nat)
    }
}

/// A run of mapped addresses among `count` addresses holds at most `count`
/// of them, and every address in it is mapped.
pub proof fn lemma_mapped_run(mapped: Set<int>, addr: int, count: nat)
    ensures
        mapped_run(mapped, addr, count) <= count,
        forall|a: int| addr <= a < addr + mapped_run(mapped, addr, count) ==> mapped.contains(a),
        mapped_run(mapped, addr, count) < count ==> !mapped.contains(
            addr + mapped_run(mapped, addr, count),
        ),
    decreases count,
{
    if count != 0 && mapped.contains(addr) {
        lemma_mapped_run(mapped, addr + 1, (count - 1) as nat);
    }
}

/// Where each of `count` addresses from `addr` upwards is mapped, the run
/// holds them all.
pub proof fn lemma_mapped_run_full(mapped: Set<int>, addr: int, count: nat)
    requires
        forall|a: int| addr <= a < addr + count ==> mapped.contains(a),
    ensures
        mapped_run(mapped, addr, count) == count,
    decreases count,
{
    if count != 0 {
        lemma_mapped_run_full(mapped, addr + 1, (count - 1) as nat);
    }
}

/// The memory `memory` after `bytes` were written over its mapped addresses
/// from `addr` upwards.
pub open spec fn overlay(memory: Map<int, u8>, addr: int, bytes: Seq<u8>) -> Map<int, u8> {
    Map::new(
        |a: int| memory.dom().contains(a),
        |a: int|
            if addr <= a < addr + bytes.len() {
                bytes[a - addr]
            } else {
                memory[a]
            },
    )
}

/// How many bytes a copy of `count` bytes to `addr` moves, from a source
/// that holds `available` bytes: it ends where the mapped addresses end,
/// or where the source does.
pub open spec fn copied_len(mapped: Set<int>, addr: int, available: nat, count: nat) -> nat {
    let run = mapped_run(mapped, addr, count);
    if run <= available {
        run
    } else {
        available
    }
}

/// Whether `last` is the highest mapped address, or 0 where nothing is
/// mapped.
pub open spec fn is_last_addr(mapped: Set<int>, last: int) -> bool {
    &&& forall|a: int| mapped.contains(a) ==> 0 <= a <= last
    &&& mapped.contains(last) || (last == 0 && forall|a: int| !mapped.contains(a))
}

/// The highest mapped address, or 0 where nothing is mapped.
pub open spec fn last_mapped(mapped: Set<int>) -> int {
    choose|last: int| is_last_addr(mapped, last)
}

/// There is at most one highest address.
pub proof fn lemma_last_mapped_unique(mapped: Set<int>, last: int)
    requires
        is_last_addr(mapped, last),
    ensures
        last_mapped(mapped) == last,
{
    let chosen = last_mapped(mapped);
    assert(is_last_addr(mapped, chosen));
    if mapped.contains(last) {
        assert(mapped.contains(chosen));
    }
}

/// `GuestMemory::last_addr` of `vm_memory`, as a number. It folds the last
/// addresses of the regions with `max`, from 0: the result is the highest
/// mapped address, and 0 for a memory without regions.
#[verifier::external_body]
pub(crate) fn last_addr(mem: &GuestMemoryMmap) -> (last: u64)
    ensures
        is_last_addr(guest_bytes(*mem).dom(), last as int),
{
    mem.last_addr().0
}

/// `Bytes::write_slice` of `vm_memory` on a guest memory. It writes region
/// by region from `addr` upwards and stops at the first address that no
/// region maps: the bytes before that address are written in either case,
/// and the call succeeds only where none is left. The set of mapped
/// addresses stays as it is.
#[verifier::external_body]
pub(crate) fn write_slice(mem: &mut GuestMemoryMmap, buf: &[u8], addr: u64) -> (done: Result<
    (),
    GuestMemoryError,
>)
    requires
        buf@.len() > 0,
    ensures
        done.is_ok() == (mapped_run(guest_bytes(*old(mem)).dom(), addr as int, buf@.len())
            == buf@.len()),
        guest_bytes(*final(mem)) == overlay(
            guest_bytes(*old(mem)),
            addr as int,
            buf@.take(mapped_run(guest_bytes(*old(mem)).dom(), addr as int, buf@.len()) as int),
        ),
{
    mem.write_slice(buf, GuestAddress(addr))
}

/// `Bytes::read_exact_from` of `vm_memory` on a guest memory, reading from
/// a byte slice. It copies from the start of `src` to `addr` upwards, region
/// by region, and stops at the first address that no region maps or where
/// `src` ends: the bytes before that are written in either case, and the
/// call succeeds only where `count` bytes were copied. The set of mapped
/// addresses stays as it is.
#[verifier::external_body]
pub(crate) fn read_exact_from(
    mem: &mut GuestMemoryMmap,
    addr: u64,
    src: &[u8],
    count: usize,
) -> (done: Result<(), GuestMemoryError>)
    requires
        count > 0,
    ensures
        done.is_ok() == (copied_len(
            guest_bytes(*old(mem)).dom(),
            addr as int,
            src@.len(),
            count as nat,
        ) == count),
        guest_bytes(*final(mem)) == overlay(
            guest_bytes(*old(mem)),
            addr as int,
            src@.take(
                copied_len(guest_bytes(*old(mem)).dom(), addr as int, src@.len(), count as nat) as int,
            ),
        ),
{
    let mut reader: &[u8] = src;
    mem.read_exact_from(GuestAddress(addr), &mut reader, count)
}

} // verus!
