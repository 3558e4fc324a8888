//! The segments of a kernel after a load: which addresses a load leaves as
//! they were, where the bytes of a segment are found afterwards, which end
//! is the highest, and that a load depends on nothing but what it is given.

use crate::elf::ProgramHeader;
use crate::guest::lemma_mapped_run;
use crate::loader::{
    image_from, is_loadable, load_kernel_outcome, load_segment_outcome, load_segments_outcome,
    program_headers, segment_addr, segment_end,
};
use vstd::prelude::*;

verus! {

/// Whether `a` is one of the addresses that the segment of `phdr` is
/// copied to.
pub open spec fn in_segment(base: Option<u64>, phdr: ProgramHeader, a: int) -> bool {
    &&& is_loadable(phdr)
    &&& segment_addr(base, phdr) matches Some(addr)
    &&& addr <= a < addr + phdr.p_filesz
}

/// Whether `a` is one of the addresses that a segment of the table from
/// index `from` on is copied to.
pub open spec fn in_segment_from(
    base: Option<u64>,
    phdrs: Seq<ProgramHeader>,
    from: int,
    a: int,
) -> bool {
    exists|j: int| from <= j < phdrs.len() && #[trigger] in_segment(base, phdrs[j], a)
}

/// Whether the bytes of segment `i` of the table stand in `memory` as they
/// stand in the image, at each of its addresses that no later segment is
/// copied to.
pub open spec fn segment_in_place(
    image: Seq<u8>,
    base: Option<u64>,
    phdrs: Seq<ProgramHeader>,
    i: int,
    memory: Map<int, u8>,
) -> bool {
    is_loadable(phdrs[i]) ==> {
        &&& segment_addr(base, phdrs[i]) is Some
        &&& phdrs[i].p_offset + phdrs[i].p_filesz <= image.len()
        &&& forall|k: int|
            0 <= k < phdrs[i].p_filesz && !in_segment_from(
                base,
                phdrs,
                i + 1,
                segment_addr(base, phdrs[i])->0 + k,
            ) ==> {
                &&& #[trigger] memory.dom().contains(segment_addr(base, phdrs[i])->0 + k)
                &&& memory[segment_addr(base, phdrs[i])->0 + k] == image[phdrs[i].p_offset + k]
            }
    }
}

/// Handling program headers maps no address anew and unmaps none, and it
/// leaves each byte as it was that lies in none of their segments. This
/// holds of a load that failed too.
pub proof fn lemma_load_segments_frame(
    image: Seq<u8>,
    base: Option<u64>,
    phdrs: Seq<ProgramHeader>,
    from: int,
    memory: Map<int, u8>,
    end: u64,
)
    requires
        0 <= from,
    ensures
        load_segments_outcome(image, base, phdrs, from, memory, end).memory.dom() == memory.dom(),
        forall|a: int|
            memory.dom().contains(a) && !in_segment_from(base, phdrs, from, a)
                ==> #[trigger] load_segments_outcome(
                image,
                base,
                phdrs,
                from,
                memory,
                end,
            ).memory[a] == memory[a],
    decreases phdrs.len() - from,
{
    if from < phdrs.len() {
        let phdr = phdrs[from];
        let step = load_segment_outcome(image, base, phdr, memory, end);
        assert(step.memory.dom() =~= memory.dom());
        if is_loadable(phdr) && segment_addr(base, phdr) is Some {
            let addr = segment_addr(base, phdr)->0;
            lemma_mapped_run(memory.dom(), addr as int, phdr.p_filesz as nat);
        }
        assert forall|a: int|
            memory.dom().contains(a) && !in_segment_from(base, phdrs, from, a) implies step.memory[a]
            == memory[a] && !in_segment_from(base, phdrs, from + 1, a) by {
            assert(!in_segment(base, phdrs[from], a));
            if in_segment_from(base, phdrs, from + 1, a) {
                let j = choose|j: int|
                    from + 1 <= j < phdrs.len() && #[trigger] in_segment(base, phdrs[j], a);
                assert(in_segment(base, phdrs[j], a));
            }
        }
        if step.end is Ok {
            lemma_load_segments_frame(image, base, phdrs, from + 1, step.memory, step.end->Ok_0);
        }
    }
}

/// After a table of program headers was handled without a failure, the
/// bytes of each of its segments stand in memory where the segment was put,
/// as they stand in the image, but for those that a later segment of the
/// table was written over.
pub proof fn lemma_segments_in_place(
    image: Seq<u8>,
    base: Option<u64>,
    phdrs: Seq<ProgramHeader>,
    from: int,
    i: int,
    memory: Map<int, u8>,
    end: u64,
)
    requires
        0 <= from <= i < phdrs.len(),
        load_segments_outcome(image, base, phdrs, from, memory, end).end is Ok,
    ensures
        segment_in_place(
            image,
            base,
            phdrs,
            i,
            load_segments_outcome(image, base, phdrs, from, memory, end).memory,
        ),
    decreases i - from,
{
    let phdr = phdrs[from];
    let step = load_segment_outcome(image, base, phdr, memory, end);
    let next = step.end->Ok_0;
    let last = load_segments_outcome(image, base, phdrs, from, memory, end).memory;
    assert(last == load_segments_outcome(image, base, phdrs, from + 1, step.memory, next).memory);
    if from < i {
        lemma_segments_in_place(image, base, phdrs, from + 1, i, step.memory, next);
    } else if is_loadable(phdr) {
        let addr = segment_addr(base, phdr)->0;
        let source = image_from(image, phdr.p_offset);
        lemma_mapped_run(memory.dom(), addr as int, phdr.p_filesz as nat);
        lemma_load_segments_frame(image, base, phdrs, from + 1, step.memory, next);
        assert forall|k: int|
            0 <= k < phdr.p_filesz && !in_segment_from(base, phdrs, i + 1, addr + k) implies {
            &&& #[trigger] last.dom().contains(addr + k)
            &&& last[addr + k] == image[phdr.p_offset + k]
        } by {
            assert(memory.dom().contains(addr + k));
            assert(step.memory[addr + k] == source.take(phdr.p_filesz as int)[k]);
            assert(last[addr + k] == step.memory[addr + k]);
        }
    }
}

/// Of a kernel that was loaded: the bytes of each segment of its table
/// stand in guest memory at the address of the segment, as they stand in
/// the image, but for those that a later segment was written over.
pub proof fn lemma_kernel_segments_in_place(
    memory: Map<int, u8>,
    base: Option<u64>,
    image: Seq<u8>,
    lowest: Option<u64>,
    i: int,
)
    requires
        load_kernel_outcome(memory, base, image, lowest).result is Ok,
        0 <= i < program_headers(image).len(),
    ensures
        segment_in_place(
            image,
            base,
            program_headers(image),
            i,
            load_kernel_outcome(memory, base, image, lowest).memory,
        ),
{
    lemma_segments_in_place(image, base, program_headers(image), 0, i, memory, 0);
}

/// A load, be it one that fails, maps no address anew and unmaps none, and
/// leaves each byte as it was that lies in no segment of the image.
pub proof fn lemma_load_kernel_frame(
    memory: Map<int, u8>,
    base: Option<u64>,
    image: Seq<u8>,
    lowest: Option<u64>,
)
    ensures
        load_kernel_outcome(memory, base, image, lowest).memory.dom() == memory.dom(),
        forall|a: int|
            memory.dom().contains(a) && !in_segment_from(base, program_headers(image), 0, a)
                ==> #[trigger] load_kernel_outcome(memory, base, image, lowest).memory[a]
                == memory[a],
{
    lemma_load_segments_frame(image, base, program_headers(image), 0, memory, 0);
}

/// Two loads of one image with the same placement, into memories that map
/// the same addresses, return the same, and leave the same byte wherever
/// the memories held the same byte before: in memories that were equal
/// they leave equal memories.
pub proof fn lemma_load_kernel_repeatable(
    first: Map<int, u8>,
    second: Map<int, u8>,
    base: Option<u64>,
    image: Seq<u8>,
    lowest: Option<u64>,
)
    requires
        first.dom() == second.dom(),
    ensures
        load_kernel_outcome(first, base, image, lowest).result == load_kernel_outcome(
            second,
            base,
            image,
            lowest,
        ).result,
        load_kernel_outcome(first, base, image, lowest).memory.dom() == load_kernel_outcome(
            second,
            base,
            image,
            lowest,
        ).memory.dom(),
        forall|a: int|
            first.dom().contains(a) && first[a] == second[a] ==> #[trigger] load_kernel_outcome(
                first,
                base,
                image,
                lowest,
            ).memory[a] == load_kernel_outcome(second, base, image, lowest).memory[a],
        first == second ==> load_kernel_outcome(first, base, image, lowest).memory
            == load_kernel_outcome(second, base, image, lowest).memory,
{
    lemma_load_segments_repeatable(
        image,
        base,
        program_headers(image),
        0,
        first,
        second,
        0,
    );
}

/// Handling program headers in two memories that map the same addresses
/// ends the same way, and leaves the same byte wherever the memories held
/// the same byte before.
pub proof fn lemma_load_segments_repeatable(
    image: Seq<u8>,
    base: Option<u64>,
    phdrs: Seq<ProgramHeader>,
    from: int,
    first: Map<int, u8>,
    second: Map<int, u8>,
    end: u64,
)
    requires
        0 <= from,
        first.dom() == second.dom(),
    ensures
        load_segments_outcome(image, base, phdrs, from, first, end).end == load_segments_outcome(
            image,
            base,
            phdrs,
            from,
            second,
            end,
        ).end,
        load_segments_outcome(image, base, phdrs, from, first, end).memory.dom()
            == load_segments_outcome(image, base, phdrs, from, second, end).memory.dom(),
        forall|a: int|
            first.dom().contains(a) && first[a] == second[a] ==> #[trigger] load_segments_outcome(
                image,
                base,
                phdrs,
                from,
                first,
                end,
            ).memory[a] == load_segments_outcome(image, base, phdrs, from, second, end).memory[a],
    decreases phdrs.len() - from,
{
    if from < phdrs.len() {
        let one = load_segment_outcome(image, base, phdrs[from], first, end);
        let two = load_segment_outcome(image, base, phdrs[from], second, end);
        assert(one.memory.dom() =~= two.memory.dom());
        assert(one.memory.dom() =~= first.dom());
        if one.end is Ok {
            lemma_load_segments_repeatable(
                image,
                base,
                phdrs,
                from + 1,
                one.memory,
                two.memory,
                one.end->Ok_0,
            );
        }
    }
}

/// Whether `end` is where a segment of the table from index `from` on
/// ends.
pub open spec fn is_segment_end(
    base: Option<u64>,
    phdrs: Seq<ProgramHeader>,
    from: int,
    end: u64,
) -> bool {
    exists|j: int|
        from <= j < phdrs.len() && is_loadable(#[trigger] phdrs[j]) && segment_end(base, phdrs[j])
            == end
}

/// Of a kernel that was loaded: the end that is returned is the highest
/// address at which a segment of its table ends, in whatever order the
/// table names them; where the table names no segment to copy, it is 0.
pub proof fn lemma_kernel_end_is_highest(
    memory: Map<int, u8>,
    base: Option<u64>,
    image: Seq<u8>,
    lowest: Option<u64>,
)
    requires
        load_kernel_outcome(memory, base, image, lowest).result is Ok,
    ensures
        forall|j: int|
            0 <= j < program_headers(image).len() && is_loadable(program_headers(image)[j])
                ==> segment_end(base, #[trigger] program_headers(image)[j]) <= load_kernel_outcome(
                memory,
                base,
                image,
                lowest,
            ).result->Ok_0.1,
        load_kernel_outcome(memory, base, image, lowest).result->Ok_0.1 == 0 || is_segment_end(
            base,
            program_headers(image),
            0,
            load_kernel_outcome(memory, base, image, lowest).result->Ok_0.1,
        ),
        (forall|j: int|
            0 <= j < program_headers(image).len() ==> !is_loadable(
                #[trigger] program_headers(image)[j],
            )) ==> load_kernel_outcome(memory, base, image, lowest).result->Ok_0.1 == 0,
{
    lemma_end_is_highest(image, base, program_headers(image), 0, memory, 0);
}

/// The end that handling a table from index `from` on gives, where nothing
/// fails, is the highest of the end kept before and of the ends of the
/// segments that it names for copying; it is the end kept before where it
/// names none.
pub proof fn lemma_end_is_highest(
    image: Seq<u8>,
    base: Option<u64>,
    phdrs: Seq<ProgramHeader>,
    from: int,
    memory: Map<int, u8>,
    end: u64,
)
    requires
        0 <= from,
        load_segments_outcome(image, base, phdrs, from, memory, end).end is Ok,
    ensures
        end <= load_segments_outcome(image, base, phdrs, from, memory, end).end->Ok_0,
        forall|j: int|
            from <= j < phdrs.len() && is_loadable(phdrs[j]) ==> segment_end(
                base,
                #[trigger] phdrs[j],
            ) <= load_segments_outcome(image, base, phdrs, from, memory, end).end->Ok_0,
        load_segments_outcome(image, base, phdrs, from, memory, end).end->Ok_0 == end
            || is_segment_end(
            base,
            phdrs,
            from,
            load_segments_outcome(image, base, phdrs, from, memory, end).end->Ok_0,
        ),
        (forall|j: int| from <= j < phdrs.len() ==> !is_loadable(#[trigger] phdrs[j]))
            ==> load_segments_outcome(image, base, phdrs, from, memory, end).end->Ok_0 == end,
    decreases phdrs.len() - from,
{
    if from < phdrs.len() {
        let step = load_segment_outcome(image, base, phdrs[from], memory, end);
        let next = step.end->Ok_0;
        let last = load_segments_outcome(image, base, phdrs, from, memory, end).end->Ok_0;
        lemma_end_is_highest(image, base, phdrs, from + 1, step.memory, next);
        if last != end {
            if last == next {
                assert(is_loadable(phdrs[from]) && segment_end(base, phdrs[from]) == last);
            } else {
                let j = choose|j: int|
                    from + 1 <= j < phdrs.len() && is_loadable(#[trigger] phdrs[j]) && segment_end(
                        base,
                        phdrs[j],
                    ) == last;
                assert(is_loadable(phdrs[j]) && segment_end(base, phdrs[j]) == last);
            }
        }
    }
}

} // verus!
