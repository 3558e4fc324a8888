use kernel_loader::steps::{Loading, Request, Site, Step};
use kernel_loader::{ElfLoader, Error};
use std::io::{Cursor, Read, Seek, SeekFrom};
use vm_memory::{Bytes, GuestAddress, GuestMemoryMmap};

const GUEST_SIZE: usize = 0x100000;

fn guest_mem() -> GuestMemoryMmap {
    GuestMemoryMmap::from_ranges(&[(GuestAddress(0x0), GUEST_SIZE)]).unwrap()
}

fn whole(gm: &GuestMemoryMmap) -> Vec<u8> {
    let mut buf = vec![0u8; GUEST_SIZE];
    gm.read_slice(&mut buf, GuestAddress(0)).unwrap();
    buf
}

fn header(entry: u64, phoff: u64, phnum: u16) -> Vec<u8> {
    let mut v = vec![0x7f, b'E', b'L', b'F', 2, 1, 1, 0, 0, 0, 0, 0, 0, 0, 0, 0];
    v.extend_from_slice(&2u16.to_le_bytes());
    v.extend_from_slice(&0x3eu16.to_le_bytes());
    v.extend_from_slice(&1u32.to_le_bytes());
    v.extend_from_slice(&entry.to_le_bytes());
    v.extend_from_slice(&phoff.to_le_bytes());
    v.extend_from_slice(&0u64.to_le_bytes());
    v.extend_from_slice(&0u32.to_le_bytes());
    v.extend_from_slice(&64u16.to_le_bytes());
    v.extend_from_slice(&56u16.to_le_bytes());
    v.extend_from_slice(&phnum.to_le_bytes());
    v.extend_from_slice(&64u16.to_le_bytes());
    v.extend_from_slice(&0u16.to_le_bytes());
    v.extend_from_slice(&0u16.to_le_bytes());
    v
}

fn phdr(p_type: u32, offset: u64, paddr: u64, filesz: u64, memsz: u64) -> Vec<u8> {
    let mut v = Vec::new();
    v.extend_from_slice(&p_type.to_le_bytes());
    v.extend_from_slice(&5u32.to_le_bytes());
    v.extend_from_slice(&offset.to_le_bytes());
    v.extend_from_slice(&paddr.to_le_bytes());
    v.extend_from_slice(&paddr.to_le_bytes());
    v.extend_from_slice(&filesz.to_le_bytes());
    v.extend_from_slice(&memsz.to_le_bytes());
    v.extend_from_slice(&0x1000u64.to_le_bytes());
    v
}

// A header, a table of three program headers at 0x40, and 16 bytes at
// 0xe8: a segment of 8 bytes for 0x5000 that takes 0x20 in memory, a header
// that is not for loading, and a segment of 8 bytes for 0x2000.
fn two_segments() -> Vec<u8> {
    let mut v = header(0x5000, 0x40, 3);
    v.extend_from_slice(&phdr(1, 0xe8, 0x5000, 8, 0x20));
    v.extend_from_slice(&phdr(4, 0xe8, 0x9000, 8, 8));
    v.extend_from_slice(&phdr(1, 0xf0, 0x2000, 8, 0x10));
    v.extend_from_slice(&[1, 2, 3, 4, 5, 6, 7, 8, 9, 10, 11, 12, 13, 14, 15, 16]);
    v
}

// A source that fails the seek or the read with the given number, counted
// from 1 over both.
struct Faulty {
    inner: Cursor<Vec<u8>>,
    calls: usize,
    fails_at: usize,
}

impl Faulty {
    fn fault(&mut self) -> bool {
        self.calls += 1;
        self.calls == self.fails_at
    }
}

impl Read for Faulty {
    fn read(&mut self, buf: &mut [u8]) -> std::io::Result<usize> {
        if self.fault() {
            return Err(std::io::Error::new(std::io::ErrorKind::Other, "read"));
        }
        self.inner.read(buf)
    }
}

impl Seek for Faulty {
    fn seek(&mut self, pos: SeekFrom) -> std::io::Result<u64> {
        if self.fault() {
            return Err(std::io::Error::new(std::io::ErrorKind::Other, "seek"));
        }
        self.inner.seek(pos)
    }
}

// Does what each request says on `source` and `gm`, up to the end of the
// load, and gives the requests besides the result.
fn drive<F: Read + Seek>(
    gm: &GuestMemoryMmap,
    base: Option<u64>,
    source: &mut F,
    lowest: Option<u64>,
) -> (Result<(u64, u64), Error>, Vec<Request>) {
    let mut requests = Vec::new();
    let (mut state, mut request) = Loading::begin(base, lowest);
    loop {
        requests.push(request);
        let mut data = Vec::new();
        let done = match request {
            Request::Seek(position) => source.seek(SeekFrom::Start(position)).is_ok(),
            Request::Read(count) => {
                data.resize(count as usize, 0);
                source.read_exact(&mut data).is_ok()
            }
            Request::Copy { addr, count } => gm
                .read_exact_from(GuestAddress(addr), source, count as usize)
                .is_ok(),
        };
        match state.step(done, &data) {
            Step::Continue(next, then) => {
                state = next;
                request = then;
            }
            Step::Finished(result) => return (result, requests),
        }
    }
}

#[test]
fn a_load_begins_at_the_start_of_the_image() {
    let (state, request) = Loading::begin(Some(0x100), Some(0x200));
    assert_eq!(request, Request::Seek(0));
    assert_eq!(state.site, Site::Start);
    assert_eq!(state.base, Some(0x100));
    assert_eq!(state.lowest, Some(0x200));
    assert_eq!(state.end, 0);
    assert!(state.phdrs.is_empty());
}

#[test]
fn steps_of_a_load() {
    let gm = guest_mem();
    let image = two_segments();
    let (result, requests) = drive(&gm, Some(0x100), &mut Cursor::new(&image), Some(0x1000));
    assert_eq!(result, Ok((0x5100, 0x5120)));
    assert_eq!(
        requests,
        vec![
            Request::Seek(0),
            Request::Read(64),
            Request::Seek(0x40),
            Request::Read(168),
            Request::Seek(0xe8),
            Request::Copy { addr: 0x5100, count: 8 },
            Request::Seek(0xf0),
            Request::Copy { addr: 0x2100, count: 8 },
        ]
    );
    let mut buf = [0u8; 8];
    gm.read_slice(&mut buf, GuestAddress(0x5100)).unwrap();
    assert_eq!(buf, [1, 2, 3, 4, 5, 6, 7, 8]);
    gm.read_slice(&mut buf, GuestAddress(0x2100)).unwrap();
    assert_eq!(buf, [9, 10, 11, 12, 13, 14, 15, 16]);
    gm.read_slice(&mut buf, GuestAddress(0x9100)).unwrap();
    assert_eq!(buf, [0u8; 8]);
}

#[test]
fn steps_agree_with_the_load_of_the_whole_image() {
    let mut short_table = two_segments();
    short_table.truncate(0x80);
    let mut short_segment = two_segments();
    short_segment.truncate(0xf4);
    let mut bad_magic = two_segments();
    bad_magic[2] = b'l';
    let mut big_endian = two_segments();
    big_endian[5] = 2;
    let mut bad_size = two_segments();
    bad_size[0x36] = 57;
    let mut bad_offset = two_segments();
    bad_offset[0x20] = 0x3f;
    let mut outside = two_segments();
    outside[0x40 + 0x18 + 2] = 0x10;
    let images = vec![
        two_segments(),
        header(0x5000, 0x40, 0),
        header(0x5000, 0x40, 1),
        vec![0x7f, b'E', b'L', b'F'],
        Vec::new(),
        short_table,
        short_segment,
        bad_magic,
        big_endian,
        bad_size,
        bad_offset,
        outside,
    ];
    let placements = [
        (None, None),
        (Some(0x100), None),
        (None, Some(0x5000)),
        (None, Some(0x5001)),
        (Some(u64::MAX - 0x4fff), None),
        (Some(u64::MAX - 0x1fff), Some(0x10)),
    ];
    for image in &images {
        for (base, lowest) in placements {
            let stepped = guest_mem();
            let (result, _) = drive(&stepped, base, &mut Cursor::new(image), lowest);
            let mut loaded = guest_mem();
            assert_eq!(
                result,
                ElfLoader::load_kernel(&mut loaded, base, image, lowest)
            );
            assert!(whole(&stepped) == whole(&loaded));
        }
    }
}

#[test]
fn a_failure_is_reported_for_its_place() {
    let expected = [
        Error::SeekElfStart,
        Error::ReadElfHeader,
        Error::SeekProgramHeader,
        Error::ReadProgramHeader,
        Error::SeekKernelStart,
        Error::ReadKernelImage,
        Error::SeekKernelStart,
        Error::ReadKernelImage,
    ];
    for (index, fault) in expected.into_iter().enumerate() {
        let gm = guest_mem();
        let mut source = Faulty {
            inner: Cursor::new(two_segments()),
            calls: 0,
            fails_at: index + 1,
        };
        let (result, requests) = drive(&gm, None, &mut source, None);
        assert_eq!(result, Err(fault));
        assert_eq!(requests.len(), index + 1);
    }
    let gm = guest_mem();
    let mut source = Faulty {
        inner: Cursor::new(two_segments()),
        calls: 0,
        fails_at: 9,
    };
    assert_eq!(drive(&gm, None, &mut source, None).0, Ok((0x5000, 0x5020)));
}

#[test]
fn a_bad_header_ends_the_load_before_the_table_is_read() {
    let gm = guest_mem();
    let mut image = two_segments();
    image[1] = 0x33;
    let (result, requests) = drive(&gm, None, &mut Cursor::new(&image), None);
    assert_eq!(result, Err(Error::InvalidElfMagicNumber));
    assert_eq!(requests, vec![Request::Seek(0), Request::Read(64)]);
    let image = two_segments();
    let (result, requests) = drive(&gm, None, &mut Cursor::new(&image), Some(0x5001));
    assert_eq!(result, Err(Error::InvalidEntryAddress));
    assert_eq!(requests, vec![Request::Seek(0), Request::Read(64)]);
    assert!(whole(&gm) == vec![0u8; GUEST_SIZE]);
}

#[test]
fn a_read_must_give_the_bytes_asked_for() {
    let image = two_segments();
    let (state, _) = Loading::begin(None, None);
    let state = match state.step(true, &[]) {
        Step::Continue(state, request) => {
            assert_eq!(request, Request::Read(64));
            assert_eq!(state.site, Site::Header);
            state
        }
        Step::Finished(result) => panic!("ended with {:?}", result),
    };
    match state.step(true, &image[..63]) {
        Step::Finished(result) => assert_eq!(result, Err(Error::ReadElfHeader)),
        Step::Continue(_, request) => panic!("went on with {:?}", request),
    }
    let (state, _) = Loading::begin(None, None);
    let state = match state.step(true, &[]) {
        Step::Continue(state, _) => state,
        Step::Finished(result) => panic!("ended with {:?}", result),
    };
    let state = match state.step(true, &image[..64]) {
        Step::Continue(state, request) => {
            assert_eq!(request, Request::Seek(0x40));
            assert_eq!(state.site, Site::TableStart);
            assert_eq!(state.entry, 0x5000);
            assert_eq!(state.count, 3);
            state
        }
        Step::Finished(result) => panic!("ended with {:?}", result),
    };
    let state = match state.step(true, &[]) {
        Step::Continue(state, request) => {
            assert_eq!(request, Request::Read(168));
            state
        }
        Step::Finished(result) => panic!("ended with {:?}", result),
    };
    match state.step(true, &image[0x40..0xe9]) {
        Step::Finished(result) => assert_eq!(result, Err(Error::ReadProgramHeader)),
        Step::Continue(_, request) => panic!("went on with {:?}", request),
    }
}

#[test]
fn a_segment_that_leaves_the_address_space_ends_the_load() {
    let gm = guest_mem();
    let image = two_segments();
    let (result, requests) = drive(&gm, Some(u64::MAX - 0x4fff), &mut Cursor::new(&image), None);
    assert_eq!(result, Err(Error::InvalidProgramHeaderAddress));
    assert_eq!(
        requests,
        vec![
            Request::Seek(0),
            Request::Read(64),
            Request::Seek(0x40),
            Request::Read(168),
            Request::Seek(0xe8),
        ]
    );
}

#[test]
fn a_table_without_segments_ends_the_load_after_it_is_read() {
    let gm = guest_mem();
    let mut image = header(0x1234, 0x40, 2);
    image.extend_from_slice(&phdr(2, 0, 0x9000, 8, 8));
    image.extend_from_slice(&phdr(1, 0, 0x9000, 0, 8));
    let (result, requests) = drive(&gm, None, &mut Cursor::new(&image), None);
    assert_eq!(result, Ok((0x1234, 0)));
    assert_eq!(requests.len(), 4);
    let image = header(0x1234, 0x1000, 0);
    let (result, requests) = drive(&gm, None, &mut Cursor::new(&image), None);
    assert_eq!(result, Ok((0x1234, 0)));
    assert_eq!(
        requests,
        vec![
            Request::Seek(0),
            Request::Read(64),
            Request::Seek(0x1000),
            Request::Read(0),
        ]
    );
}
