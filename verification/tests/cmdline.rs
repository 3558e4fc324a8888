use kernel_loader::{load_cmdline, CommandLine, Error};
use vm_memory::{Address, Bytes, GuestAddress, GuestMemoryMmap};

const MEM_SIZE: u64 = 0x1000000;

fn new_guest_mem() -> GuestMemoryMmap {
    GuestMemoryMmap::from_ranges(&[(GuestAddress(0x0), MEM_SIZE as usize)]).unwrap()
}

#[test]
fn cmdline_overflow() {
    let mut gm = new_guest_mem();
    let cmdline_address = MEM_SIZE - 5;
    assert_eq!(
        Err(Error::CommandLineOverflow),
        load_cmdline(
            &mut gm,
            cmdline_address,
            &CommandLine::from_bytes_with_nul(b"12345\0").unwrap()
        )
    );
}

#[test]
fn cmdline_write_end() {
    let mut gm = new_guest_mem();
    let mut cmdline_address = GuestAddress(45);
    assert_eq!(
        Ok(()),
        load_cmdline(
            &mut gm,
            cmdline_address.raw_value(),
            &CommandLine::from_bytes_with_nul(b"1234\0").unwrap()
        )
    );
    let val: u8 = gm.read_obj(cmdline_address).unwrap();
    assert_eq!(val, '1' as u8);
    cmdline_address = cmdline_address.unchecked_add(1);
    let val: u8 = gm.read_obj(cmdline_address).unwrap();
    assert_eq!(val, '2' as u8);
    cmdline_address = cmdline_address.unchecked_add(1);
    let val: u8 = gm.read_obj(cmdline_address).unwrap();
    assert_eq!(val, '3' as u8);
    cmdline_address = cmdline_address.unchecked_add(1);
    let val: u8 = gm.read_obj(cmdline_address).unwrap();
    assert_eq!(val, '4' as u8);
    cmdline_address = cmdline_address.unchecked_add(1);
    let val: u8 = gm.read_obj(cmdline_address).unwrap();
    assert_eq!(val, '\0' as u8);
}

#[test]
fn cmdline_reaches_the_end_of_memory() {
    let mut gm = new_guest_mem();
    let line = CommandLine::from_bytes_with_nul(b"12345\0").unwrap();
    assert_eq!(Ok(()), load_cmdline(&mut gm, MEM_SIZE - 6, &line));
    let mut buf = [0xffu8; 6];
    gm.read_slice(&mut buf, GuestAddress(MEM_SIZE - 6)).unwrap();
    assert_eq!(&buf, b"12345\0");
    let mut other = new_guest_mem();
    assert_eq!(
        Err(Error::CommandLineOverflow),
        load_cmdline(&mut other, MEM_SIZE - 5, &line)
    );
    // Nothing was written by the call that failed.
    let mut tail = [0xffu8; 5];
    other.read_slice(&mut tail, GuestAddress(MEM_SIZE - 5)).unwrap();
    assert_eq!(tail, [0u8; 5]);
}

#[test]
fn cmdline_end_overflows_the_address_space() {
    let mut gm = new_guest_mem();
    let line = CommandLine::from_bytes_with_nul(b"12345\0").unwrap();
    assert_eq!(
        Err(Error::CommandLineOverflow),
        load_cmdline(&mut gm, u64::MAX - 5, &line)
    );
    assert_eq!(
        Err(Error::CommandLineOverflow),
        load_cmdline(&mut gm, u64::MAX, &line)
    );
}

#[test]
fn empty_cmdline_writes_nothing() {
    let mut gm = new_guest_mem();
    gm.write_slice(&[7u8; 4], GuestAddress(0x100)).unwrap();
    let line = CommandLine::from_bytes_with_nul(b"\0").unwrap();
    assert_eq!(Ok(()), load_cmdline(&mut gm, 0x100, &line));
    let mut buf = [0u8; 4];
    gm.read_slice(&mut buf, GuestAddress(0x100)).unwrap();
    assert_eq!(buf, [7u8; 4]);
    // An empty command line is accepted at any address.
    assert_eq!(Ok(()), load_cmdline(&mut gm, MEM_SIZE, &line));
    assert_eq!(Ok(()), load_cmdline(&mut gm, u64::MAX, &line));
}

#[test]
fn cmdline_copy_stops_at_a_gap() {
    let mut gm = GuestMemoryMmap::from_ranges(&[
        (GuestAddress(0x0), 0x1000),
        (GuestAddress(0x2000), 0x1000),
    ])
    .unwrap();
    let line = CommandLine::from_bytes_with_nul(b"1234\0").unwrap();
    assert_eq!(
        Err(Error::CommandLineCopy),
        load_cmdline(&mut gm, 0xffe, &line)
    );
    let mut buf = [0u8; 2];
    gm.read_slice(&mut buf, GuestAddress(0xffe)).unwrap();
    assert_eq!(&buf, b"12");
    let val: u8 = gm.read_obj(GuestAddress(0x2000)).unwrap();
    assert_eq!(val, 0);
    assert_eq!(
        Err(Error::CommandLineCopy),
        load_cmdline(&mut gm, 0x1800, &line)
    );
    assert_eq!(Ok(()), load_cmdline(&mut gm, 0x2ffb, &line));
    assert_eq!(
        Err(Error::CommandLineOverflow),
        load_cmdline(&mut gm, 0x2ffc, &line)
    );
}

#[test]
fn cmdline_in_a_memory_without_regions() {
    let mut gm = GuestMemoryMmap::new();
    let line = CommandLine::from_bytes_with_nul(b"1\0").unwrap();
    assert_eq!(
        Err(Error::CommandLineOverflow),
        load_cmdline(&mut gm, 0, &line)
    );
}

#[test]
fn command_line_needs_its_only_nul_at_the_end() {
    assert!(CommandLine::from_bytes_with_nul(b"").is_none());
    assert!(CommandLine::from_bytes_with_nul(b"abc").is_none());
    assert!(CommandLine::from_bytes_with_nul(b"a\0c\0").is_none());
    assert!(CommandLine::from_bytes_with_nul(b"\0\0").is_none());
    let line = CommandLine::from_bytes_with_nul(b"console=ttyS0\0").unwrap();
    assert_eq!(line.len(), 13);
    assert_eq!(line.to_bytes_with_nul(), b"console=ttyS0\0");
    let empty = CommandLine::from_bytes_with_nul(b"\0").unwrap();
    assert_eq!(empty.len(), 0);
    assert_eq!(empty.to_bytes_with_nul(), b"\0");
}
