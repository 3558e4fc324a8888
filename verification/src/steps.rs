//! A load taken step by step, for a kernel image that is read from a source
//! outside this library.
//!
//! The library decides and the caller acts: each step names the one thing
//! to do next with the source, and the step after it takes what came of
//! that. So the image is read no further than the load has got, and a
//! failure is reported for the place where it happened.

use crate::elf::{
    decode_elf_header, decode_ident, decode_program_header, decode_program_headers, le_u32,
    le_u64, read_elf_header, read_program_headers, readable, ProgramHeader, EHDR_SIZE,
    PHDR_SIZE, PT_LOAD,
};
use crate::error::Error;
use crate::guest::{copied_len, overlay};
use crate::loader::{
    check_header, entry_address, header_fault, higher, image_header, is_loadable,
    load_kernel_outcome, load_segment_outcome, load_segments_outcome, program_headers,
    segment_addr, segment_end, KernelLoaded, Loaded,
};
use vstd::prelude::*;

verus! {

/// What is to be done with the source of the image, or with it and guest
/// memory.
#[derive(Clone, Copy, Debug, PartialEq, Eq, Structural)]
pub enum Request {
    /// Move the source to this many bytes from its start.
    Seek(u64),
    /// Read exactly this many bytes from the source, where it stands.
    Read(u64),
    /// Copy exactly `count` bytes from the source, where it stands, to guest
    /// memory at `addr`.
    Copy { addr: u64, count: u64 },
}

/// How far a load has got: what was asked for last.
#[derive(Clone, Copy, Debug, PartialEq, Eq, Structural)]
pub enum Site {
    /// The move to the start of the image.
    Start,
    /// The read of the ELF header.
    Header,
    /// The move to the table of program headers.
    TableStart,
    /// The read of the table of program headers.
    Table,
    /// The move to the bytes of a segment.
    SegmentStart,
    /// The copy of a segment.
    Segment,
}

/// A load that has not ended.
#[derive(Debug)]
pub struct Loading {
    /// The address that the addresses of the image are relative to, if any.
    pub base: Option<u64>,
    /// The lowest address allowed for the entry point, if any.
    pub lowest: Option<u64>,
    /// What was asked for last.
    pub site: Site,
    /// The address at which execution begins, once the header is read.
    pub entry: u64,
    /// The number of program headers, once the header is read.
    pub count: u16,
    /// The table of program headers, once it is read.
    pub phdrs: Vec<ProgramHeader>,
    /// The index in the table of the segment that is being handled.
    pub index: usize,
    /// The highest end of a segment copied so far.
    pub end: u64,
}

/// A load that has not ended, as a value of the mathematics.
pub struct LoadingState {
    pub base: Option<u64>,
    pub lowest: Option<u64>,
    pub site: Site,
    pub entry: u64,
    pub count: u16,
    pub phdrs: Seq<ProgramHeader>,
    pub index: nat,
    pub end: u64,
}

impl View for Loading {
    type V = LoadingState;

    open spec fn view(&self) -> LoadingState {
        LoadingState {
            base: self.base,
            lowest: self.lowest,
            site: self.site,
            entry: self.entry,
            count: self.count,
            phdrs: self.phdrs@,
            index: self.index as nat,
            end: self.end,
        }
    }
}

/// What a step gives: the load goes on with a request, or it has ended.
#[derive(Debug)]
pub enum Step {
    /// Do what the request says, then take the next step from this state.
    Continue(Loading, Request),
    /// The load has ended, with the entry point and the highest end of a
    /// segment, or with a failure.
    Finished(Result<(u64, u64), Error>),
}

/// What a step gives, as a value of the mathematics.
pub enum StepState {
    Continue(LoadingState, Request),
    Finished(Result<(u64, u64), Error>),
}

impl View for Step {
    type V = StepState;

    open spec fn view(&self) -> StepState {
        match self {
            Step::Continue(loading, request) => StepState::Continue(loading@, *request),
            Step::Finished(result) => StepState::Finished(*result),
        }
    }
}

/// The state in which every load begins. It goes with the request to move
/// to the start of the image.
pub open spec fn begin_state(base: Option<u64>, lowest: Option<u64>) -> LoadingState {
    LoadingState {
        base,
        lowest,
        site: Site::Start,
        entry: 0,
        count: 0,
        phdrs: Seq::empty(),
        index: 0,
        end: 0,
    }
}

/// The index of the first program header from `from` on that names a
/// segment to copy; the length of the table where there is none.
pub open spec fn first_loadable(phdrs: Seq<ProgramHeader>, from: nat) -> nat
    decreases phdrs.len() - from,
{
    if from >= phdrs.len() {
        phdrs.len()
    } else if is_loadable(phdrs[from as int]) {
        from
    } else {
        first_loadable(phdrs, from + 1)
    }
}

/// The step to the next segment to copy from index `from` on: the move to
/// its bytes in the image, or the end of the load where none is left.
pub open spec fn advance(state: LoadingState, from: nat) -> StepState {
    let index = first_loadable(state.phdrs, from);
    if index >= state.phdrs.len() {
        StepState::Finished(Ok((state.entry, state.end)))
    } else {
        StepState::Continue(
            LoadingState { site: Site::SegmentStart, index, ..state },
            Request::Seek(state.phdrs[index as int].p_offset),
        )
    }
}

/// The step that follows in `state` once the request before it was carried
/// out (`done`) or has failed, with `data` the bytes that were read where it
/// was a read.
///
/// A request that failed ends the load with the failure of its place, and
/// so does a read that did not give the number of bytes asked for. A header
/// that fails a check ends it with the failure of the first such check.
/// After the table is read, and after each copy, the load goes on to the
/// next segment that the table names for copying, and it ends where none is
/// left, with the entry point and the highest end of a copied segment.
///
/// A state that no load gets to, one whose index lies past its table, ends
/// the load with what the state holds.
pub open spec fn step_outcome(state: LoadingState, done: bool, data: Seq<u8>) -> StepState {
    match state.site {
        Site::Start => if !done {
            StepState::Finished(Err(Error::SeekElfStart))
        } else {
            StepState::Continue(
                LoadingState { site: Site::Header, ..state },
                Request::Read(EHDR_SIZE as u64),
            )
        },
        Site::Header => if !done || data.len() != EHDR_SIZE {
            StepState::Finished(Err(Error::ReadElfHeader))
        } else {
            let header = decode_elf_header(data, 0);
            match header_fault(header, state.lowest) {
                Some(fault) => StepState::Finished(Err(fault)),
                None => StepState::Continue(
                    LoadingState {
                        site: Site::TableStart,
                        entry: entry_address(header, state.base),
                        count: header.e_phnum,
                        ..state
                    },
                    Request::Seek(header.e_phoff),
                ),
            }
        },
        Site::TableStart => if !done {
            StepState::Finished(Err(Error::SeekProgramHeader))
        } else {
            StepState::Continue(
                LoadingState { site: Site::Table, ..state },
                Request::Read((PHDR_SIZE * state.count) as u64),
            )
        },
        Site::Table => if !done || data.len() != PHDR_SIZE * state.count {
            StepState::Finished(Err(Error::ReadProgramHeader))
        } else {
            advance(
                LoadingState {
                    phdrs: decode_program_headers(data, 0, state.count as nat),
                    end: 0,
                    ..state
                },
                0,
            )
        },
        Site::SegmentStart => if !done {
            StepState::Finished(Err(Error::SeekKernelStart))
        } else if state.index >= state.phdrs.len() {
            StepState::Finished(Ok((state.entry, state.end)))
        } else {
            match segment_addr(state.base, state.phdrs[state.index as int]) {
                None => StepState::Finished(Err(Error::InvalidProgramHeaderAddress)),
                Some(addr) => StepState::Continue(
                    LoadingState { site: Site::Segment, ..state },
                    Request::Copy { addr, count: state.phdrs[state.index as int].p_filesz },
                ),
            }
        },
        Site::Segment => if !done {
            StepState::Finished(Err(Error::ReadKernelImage))
        } else if state.index >= state.phdrs.len() {
            StepState::Finished(Ok((state.entry, state.end)))
        } else if segment_addr(state.base, state.phdrs[state.index as int]) is None {
            StepState::Finished(Err(Error::InvalidProgramHeaderAddress))
        } else {
            advance(
                LoadingState {
                    end: higher(
                        state.end,
                        segment_end(state.base, state.phdrs[state.index as int]),
                    ),
                    ..state
                },
                state.index + 1,
            )
        },
    }
}

/// Finds the first program header from `from` on that names a segment to
/// copy.
fn find_loadable(phdrs: &Vec<ProgramHeader>, from: usize) -> (index: usize)
    ensures
        index == first_loadable(phdrs@, from as nat),
        index <= phdrs@.len(),
{
    let mut index: usize = from;
    while index < phdrs.len()
        invariant
            first_loadable(phdrs@, index as nat) == first_loadable(phdrs@, from as nat),
        decreases phdrs@.len() - index,
    {
        if phdrs[index].p_type == PT_LOAD && phdrs[index].p_filesz != 0 {
            return index;
        }
        index = index + 1;
    }
    phdrs.len()
}

/// Moves the load to the next segment to copy from index `from` on.
fn go_on(state: Loading, from: usize) -> (next: Step)
    ensures
        next@ == advance(state@, from as nat),
{
    let index = find_loadable(&state.phdrs, from);
    if index >= state.phdrs.len() {
        Step::Finished(Ok((state.entry, state.end)))
    } else {
        let offset = state.phdrs[index].p_offset;
        Step::Continue(
            Loading {
                base: state.base,
                lowest: state.lowest,
                site: Site::SegmentStart,
                entry: state.entry,
                count: state.count,
                phdrs: state.phdrs,
                index,
                end: state.end,
            },
            Request::Seek(offset),
        )
    }
}

impl Loading {
    /// Begins a load: gives its first state, and the request that goes
    /// with it, the move to the start of the image.
    pub fn begin(base: Option<u64>, lowest: Option<u64>) -> (first: (Loading, Request))
        ensures
            first.0@ == begin_state(base, lowest),
            first.1 == Request::Seek(0),
    {
        (
            Loading {
                base,
                lowest,
                site: Site::Start,
                entry: 0,
                count: 0,
                phdrs: Vec::new(),
                index: 0,
                end: 0,
            },
            Request::Seek(0),
        )
    }

    /// Takes the next step of the load, once the request before it was
    /// carried out (`done`) or has failed. Where the request was a read,
    /// `data` holds the bytes that were read.
    pub fn step(self, done: bool, data: &[u8]) -> (next: Step)
        ensures
            next@ == step_outcome(self@, done, data@),
    {
        let Loading { base, lowest, site, entry, count, phdrs, index, end } = self;
        match site {
            Site::Start => {
                if !done {
                    return Step::Finished(Err(Error::SeekElfStart));
                }
                Step::Continue(
                    Loading { base, lowest, site: Site::Header, entry, count, phdrs, index, end },
                    Request::Read(EHDR_SIZE as u64),
                )
            },
            Site::Header => {
                if !done || data.len() != EHDR_SIZE {
                    return Step::Finished(Err(Error::ReadElfHeader));
                }
                let header = match read_elf_header(data, 0) {
                    Some(header) => header,
                    None => {
                        return Step::Finished(Err(Error::ReadElfHeader));
                    },
                };
                match check_header(&header, lowest) {
                    Ok(()) => {},
                    Err(fault) => {
                        return Step::Finished(Err(fault));
                    },
                }
                let entry = match base {
                    Some(start) => start.wrapping_add(header.e_entry),
                    None => header.e_entry,
                };
                Step::Continue(
                    Loading {
                        base,
                        lowest,
                        site: Site::TableStart,
                        entry,
                        count: header.e_phnum,
                        phdrs,
                        index,
                        end,
                    },
                    Request::Seek(header.e_phoff),
                )
            },
            Site::TableStart => {
                if !done {
                    return Step::Finished(Err(Error::SeekProgramHeader));
                }
                let record: u64 = PHDR_SIZE as u64;
                Step::Continue(
                    Loading { base, lowest, site: Site::Table, entry, count, phdrs, index, end },
                    Request::Read(record * (count as u64)),
                )
            },
            Site::Table => {
                let record: u64 = PHDR_SIZE as u64;
                if !done || data.len() as u64 != record * (count as u64) {
                    return Step::Finished(Err(Error::ReadProgramHeader));
                }
                let table = match read_program_headers(data, 0, count) {
                    Some(table) => table,
                    None => {
                        return Step::Finished(Err(Error::ReadProgramHeader));
                    },
                };
                go_on(Loading { base, lowest, site, entry, count, phdrs: table, index, end: 0 }, 0)
            },
            Site::SegmentStart => {
                if !done {
                    return Step::Finished(Err(Error::SeekKernelStart));
                }
                if index >= phdrs.len() {
                    return Step::Finished(Ok((entry, end)));
                }
                let addr = match base {
                    Some(start) => match start.checked_add(phdrs[index].p_paddr) {
                        Some(addr) => addr,
                        None => {
                            return Step::Finished(Err(Error::InvalidProgramHeaderAddress));
                        },
                    },
                    None => phdrs[index].p_paddr,
                };
                let count_bytes = phdrs[index].p_filesz;
                Step::Continue(
                    Loading { base, lowest, site: Site::Segment, entry, count, phdrs, index, end },
                    Request::Copy { addr, count: count_bytes },
                )
            },
            Site::Segment => {
                if !done {
                    return Step::Finished(Err(Error::ReadKernelImage));
                }
                if index >= phdrs.len() {
                    return Step::Finished(Ok((entry, end)));
                }
                let addr = match base {
                    Some(start) => match start.checked_add(phdrs[index].p_paddr) {
                        Some(addr) => addr,
                        None => {
                            return Step::Finished(Err(Error::InvalidProgramHeaderAddress));
                        },
                    },
                    None => phdrs[index].p_paddr,
                };
                let segment_end = addr.wrapping_add(phdrs[index].p_memsz);
                let end = if segment_end > end {
                    segment_end
                } else {
                    end
                };
                go_on(Loading { base, lowest, site, entry, count, phdrs, index, end }, index + 1)
            },
        }
    }
}

/// What came of a request: whether it was carried out, the bytes that were
/// read, and where the source stands and what guest memory holds after it.
pub struct Answer {
    pub done: bool,
    pub data: Seq<u8>,
    pub position: int,
    pub memory: Map<int, u8>,
}

/// What comes of a request where the source holds the bytes `image` and
/// stands at `position`, and guest memory holds `memory`.
///
/// Such a source can be moved anywhere. It gives the bytes asked for where
/// it holds that many from where it stands. A copy takes its bytes to guest
/// memory as far as the source and the mapped addresses go.
pub open spec fn answer(
    request: Request,
    image: Seq<u8>,
    position: int,
    memory: Map<int, u8>,
) -> Answer {
    match request {
        Request::Seek(to) => Answer { done: true, data: Seq::empty(), position: to as int, memory },
        Request::Read(count) => if count == 0 {
            Answer { done: true, data: Seq::empty(), position, memory }
        } else if 0 <= position && position + count <= image.len() {
            Answer {
                done: true,
                data: image.subrange(position, position + count),
                position: position + count,
                memory,
            }
        } else {
            Answer { done: false, data: Seq::empty(), position, memory }
        },
        Request::Copy { addr, count } => {
            let source = if 0 <= position < image.len() {
                image.subrange(position, image.len() as int)
            } else {
                Seq::empty()
            };
            let copied = copied_len(memory.dom(), addr as int, source.len(), count as nat);
            Answer {
                done: copied == count,
                data: Seq::empty(),
                position: position + copied,
                memory: overlay(memory, addr as int, source.take(copied as int)),
            }
        },
    }
}

/// How far from its end a load is at least, by what was asked for last.
pub open spec fn site_rank(site: Site) -> nat {
    match site {
        Site::Start => 4,
        Site::Header => 3,
        Site::TableStart => 2,
        Site::Table => 1,
        Site::SegmentStart => 0,
        Site::Segment => 0,
    }
}

/// The segments that a load has not passed yet, counted twice, less one
/// where the copy of the first of them was asked for.
pub open spec fn segments_left(state: LoadingState) -> nat {
    if state.index >= state.phdrs.len() {
        0
    } else if state.site == Site::Segment {
        (2 * (state.phdrs.len() - state.index) - 1) as nat
    } else {
        (2 * (state.phdrs.len() - state.index)) as nat
    }
}

/// What a load by steps does from `state` and `request` on, where the
/// source holds the bytes `image` and stands at `position`, and guest memory
/// holds `memory`: each request is answered as [`answer`] says, up to the
/// step that ends the load.
pub open spec fn run(
    state: LoadingState,
    request: Request,
    image: Seq<u8>,
    position: int,
    memory: Map<int, u8>,
) -> KernelLoaded
    decreases site_rank(state.site), segments_left(state),
    via run_ends
{
    let came = answer(request, image, position, memory);
    match step_outcome(state, came.done, came.data) {
        StepState::Finished(result) => KernelLoaded { memory: came.memory, result },
        StepState::Continue(next, then) => run(next, then, image, came.position, came.memory),
    }
}

#[via_fn]
proof fn run_ends(
    state: LoadingState,
    request: Request,
    image: Seq<u8>,
    position: int,
    memory: Map<int, u8>,
) {
    let came = answer(request, image, position, memory);
    if state.site == Site::Segment && state.index < state.phdrs.len() {
        lemma_first_loadable(state.phdrs, state.index + 1);
    }
    if state.site == Site::Table {
        lemma_first_loadable(decode_program_headers(came.data, 0, state.count as nat), 0);
    }
}

/// The first program header from `from` on that names a segment to copy
/// stands at `from` or after it, and no header between the two names one.
pub proof fn lemma_first_loadable(phdrs: Seq<ProgramHeader>, from: nat)
    ensures
        from <= phdrs.len() ==> from <= first_loadable(phdrs, from) <= phdrs.len(),
        first_loadable(phdrs, from) < phdrs.len() ==> is_loadable(
            phdrs[first_loadable(phdrs, from) as int],
        ),
        forall|i: int| from <= i < first_loadable(phdrs, from) ==> !is_loadable(#[trigger] phdrs[i]),
    decreases phdrs.len() - from,
{
    if from < phdrs.len() && !is_loadable(phdrs[from as int]) {
        lemma_first_loadable(phdrs, from + 1);
    }
}

/// What handling a table of program headers gives, as what a load
/// returns: the entry point goes with the end where nothing failed.
pub open spec fn with_entry(loaded: Loaded, entry: u64) -> KernelLoaded {
    KernelLoaded {
        memory: loaded.memory,
        result: match loaded.end {
            Ok(end) => Ok((entry, end)),
            Err(fault) => Err(fault),
        },
    }
}

/// What a load by steps does from the step to the next segment on.
pub open spec fn run_from(
    state: LoadingState,
    from: nat,
    image: Seq<u8>,
    position: int,
    memory: Map<int, u8>,
) -> KernelLoaded {
    match advance(state, from) {
        StepState::Finished(result) => KernelLoaded { memory, result },
        StepState::Continue(next, then) => run(next, then, image, position, memory),
    }
}

/// A header decoded from the bytes that were read for it is the header
/// decoded from the image where they stand.
proof fn lemma_header_read(image: Seq<u8>)
    requires
        image.len() >= EHDR_SIZE,
    ensures
        decode_elf_header(image.subrange(0, EHDR_SIZE as int), 0) == decode_elf_header(image, 0),
{
    let data = image.subrange(0, EHDR_SIZE as int);
    assert forall|k: int| 0 <= k < EHDR_SIZE implies #[trigger] data[k] == image[k] by {}
    assert(decode_ident(data, 0) =~= decode_ident(image, 0));
}

/// A program header decoded from bytes is the one decoded from other
/// bytes where the 56 bytes that it is decoded from are the same.
proof fn lemma_program_header_read(data: Seq<u8>, from: int, image: Seq<u8>, at: int)
    requires
        0 <= from,
        0 <= at,
        from + PHDR_SIZE <= data.len(),
        at + PHDR_SIZE <= image.len(),
        data.subrange(from, from + PHDR_SIZE) == image.subrange(at, at + PHDR_SIZE),
    ensures
        decode_program_header(data, from) == decode_program_header(image, at),
{
    lemma_program_header_part(data, from);
    lemma_program_header_part(image, at);
}

/// A program header is decoded from its 56 bytes alone.
proof fn lemma_program_header_part(bytes: Seq<u8>, at: int)
    requires
        0 <= at,
        at + PHDR_SIZE <= bytes.len(),
    ensures
        decode_program_header(bytes, at) == decode_program_header(
            bytes.subrange(at, at + PHDR_SIZE),
            0,
        ),
{
    let part = bytes.subrange(at, at + PHDR_SIZE);
    assert(le_u32(bytes, at) == le_u32(part, 0));
    assert(le_u32(bytes, at + 4) == le_u32(part, 4));
    assert(le_u64(bytes, at + 8) == le_u64(part, 8));
    assert(le_u64(bytes, at + 16) == le_u64(part, 16));
    assert(le_u64(bytes, at + 24) == le_u64(part, 24));
    assert(le_u64(bytes, at + 32) == le_u64(part, 32));
    assert(le_u64(bytes, at + 40) == le_u64(part, 40));
    assert(le_u64(bytes, at + 48) == le_u64(part, 48));
}

/// A table decoded from the bytes that were read for it is the table
/// decoded from the image where they stand.
proof fn lemma_table_read(image: Seq<u8>, at: int, count: nat)
    requires
        0 <= at,
        at + PHDR_SIZE * count <= image.len(),
    ensures
        decode_program_headers(image.subrange(at, at + PHDR_SIZE * count), 0, count)
            == decode_program_headers(image, at, count),
{
    let data = image.subrange(at, at + PHDR_SIZE * count);
    let read = decode_program_headers(data, 0, count);
    let held = decode_program_headers(image, at, count);
    assert forall|i: int| 0 <= i < count implies #[trigger] read[i] == held[i] by {
        let from = PHDR_SIZE * i;
        assert(data.subrange(from, from + PHDR_SIZE) =~= image.subrange(
            at + from,
            at + from + PHDR_SIZE,
        ));
        lemma_program_header_read(data, from, image, at + from);
    }
    assert(read =~= held);
}

/// From the step to the next segment on, a load by steps over the bytes of
/// an image does what handling the table from that segment on does.
#[verifier::rlimit(50)]
proof fn lemma_run_segments(
    state: LoadingState,
    from: nat,
    image: Seq<u8>,
    position: int,
    memory: Map<int, u8>,
)
    ensures
        run_from(state, from, image, position, memory) == with_entry(
            load_segments_outcome(
                image,
                state.base,
                state.phdrs,
                from as int,
                memory,
                state.end,
            ),
            state.entry,
        ),
    decreases state.phdrs.len() - from,
{
    let phdrs = state.phdrs;
    if from < phdrs.len() {
        let phdr = phdrs[from as int];
        let one = load_segment_outcome(image, state.base, phdr, memory, state.end);
        if !is_loadable(phdr) {
            lemma_run_segments(state, from + 1, image, position, memory);
        } else {
            let sought = LoadingState { site: Site::SegmentStart, index: from, ..state };
            assert(advance(state, from) == StepState::Continue(
                sought,
                Request::Seek(phdr.p_offset),
            ));
            let at = phdr.p_offset as int;
            assert(run_from(state, from, image, position, memory) == run(
                sought,
                Request::Seek(phdr.p_offset),
                image,
                position,
                memory,
            ));
            match segment_addr(state.base, phdr) {
                None => {
                    assert(step_outcome(sought, true, Seq::<u8>::empty()) == StepState::Finished(
                        Err(Error::InvalidProgramHeaderAddress),
                    ));
                },
                Some(addr) => {
                    let copying = LoadingState { site: Site::Segment, ..sought };
                    let request = Request::Copy { addr, count: phdr.p_filesz };
                    assert(step_outcome(sought, true, Seq::<u8>::empty()) == StepState::Continue(
                        copying,
                        request,
                    ));
                    assert(run(sought, Request::Seek(phdr.p_offset), image, position, memory)
                        == run(copying, request, image, at, memory));
                    let came = answer(request, image, at, memory);
                    assert(came.memory == one.memory);
                    assert(came.done == (one.end is Ok));
                    if came.done {
                        let kept = LoadingState {
                            end: higher(state.end, segment_end(state.base, phdr)),
                            ..copying
                        };
                        assert(step_outcome(copying, true, came.data) == advance(kept, from + 1));
                        assert(run(copying, request, image, at, memory) == run_from(
                            kept,
                            from + 1,
                            image,
                            came.position,
                            came.memory,
                        ));
                        lemma_run_segments(kept, from + 1, image, came.position, came.memory);
                    } else {
                        assert(step_outcome(copying, false, came.data) == StepState::Finished(
                            Err(Error::ReadKernelImage),
                        ));
                    }
                },
            }
        }
    }
}

/// A load by steps, where every request is answered from the bytes of an
/// image and from guest memory, returns what [`ElfLoader::load_kernel`]
/// returns for that image, and leaves guest memory as it does. Where the
/// source stands at first does not matter.
///
/// [`ElfLoader::load_kernel`]: crate::loader::ElfLoader::load_kernel
#[verifier::rlimit(50)]
pub proof fn lemma_steps_load_the_image(
    memory: Map<int, u8>,
    base: Option<u64>,
    image: Seq<u8>,
    lowest: Option<u64>,
    position: int,
)
    ensures
        run(begin_state(base, lowest), Request::Seek(0), image, position, memory)
            == load_kernel_outcome(memory, base, image, lowest),
{
    let first = begin_state(base, lowest);
    let reading = LoadingState { site: Site::Header, ..first };
    let read = Request::Read(EHDR_SIZE as u64);
    assert(step_outcome(first, true, Seq::<u8>::empty()) == StepState::Continue(reading, read));
    assert(run(first, Request::Seek(0), image, position, memory) == run(
        reading,
        read,
        image,
        0,
        memory,
    ));
    let came = answer(read, image, 0, memory);
    if image.len() >= EHDR_SIZE {
        lemma_header_read(image);
        let header = image_header(image);
        assert(came.data == image.subrange(0, EHDR_SIZE as int));
        if header_fault(header, lowest) is None {
            let seeking = LoadingState {
                site: Site::TableStart,
                entry: entry_address(header, base),
                count: header.e_phnum,
                ..reading
            };
            assert(step_outcome(reading, true, came.data) == StepState::Continue(
                seeking,
                Request::Seek(header.e_phoff),
            ));
            assert(run(reading, read, image, 0, memory) == run(
                seeking,
                Request::Seek(header.e_phoff),
                image,
                came.position,
                memory,
            ));
            let table = LoadingState { site: Site::Table, ..seeking };
            let size = (PHDR_SIZE * header.e_phnum) as u64;
            let at = header.e_phoff as int;
            assert(step_outcome(seeking, true, Seq::<u8>::empty()) == StepState::Continue(
                table,
                Request::Read(size),
            ));
            assert(run(seeking, Request::Seek(header.e_phoff), image, came.position, memory)
                == run(table, Request::Read(size), image, at, memory));
            let got = answer(Request::Read(size), image, at, memory);
            if readable(image.len(), at, size as nat) {
                if size != 0 {
                    lemma_table_read(image, at, header.e_phnum as nat);
                } else {
                    assert(decode_program_headers(got.data, 0, 0) =~= program_headers(image));
                }
                let handling = LoadingState { phdrs: program_headers(image), end: 0, ..table };
                assert(step_outcome(table, true, got.data) == advance(handling, 0));
                assert(run(table, Request::Read(size), image, at, memory) == run_from(
                    handling,
                    0,
                    image,
                    got.position,
                    memory,
                ));
                lemma_run_segments(handling, 0, image, got.position, memory);
            }
        }
    }
}

} // verus!
