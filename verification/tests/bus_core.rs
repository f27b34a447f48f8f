use iobus::bus::{Bus, Device};
use iobus::error::Error;
use iobus::ram::{Ram, PAGE_SIZE};
use iobus::range::MemoryRange;

fn read_vec(bus: &Bus, addr: u64, len: usize) -> Result<Vec<u8>, Error> {
    let mut buf = vec![0u8; len];
    bus.read(addr, &mut buf)?;
    Ok(buf)
}

#[test]
fn concrete_scenario() {
    let mut bus = Bus::new();
    bus.register(Device::Leaf(Ram::new(0x10000)), 0x10000, 0x10000);

    assert_eq!(bus.write(0x10001, &vec![1, 2, 3]), Ok(()));
    assert_eq!(read_vec(&bus, 0x10001, 3), Ok(vec![1, 2, 3]));

    assert_eq!(read_vec(&bus, 0x30000, 1), Err(Error::InvalidAccess));

    // The window starting at 0x1FFFE pokes past the end of the store:
    // explicitly rejected, nothing written.
    assert_eq!(bus.write(0x1FFFE, &vec![9, 9, 9]), Err(Error::InvalidAccess));
    assert_eq!(read_vec(&bus, 0x1FFFC, 4), Ok(vec![0, 0, 0, 0]));
}

#[test]
fn page_boundary_write_is_split() {
    let mut bus = Bus::new();
    bus.register(Device::Leaf(Ram::new(0x10000)), 0x10000, 0x10000);

    // Store offsets 0xFFE..0x1002 straddle the first page boundary.
    assert_eq!(bus.write(0x10FFE, &vec![0xA, 0xB, 0xC, 0xD]), Ok(()));
    assert_eq!(read_vec(&bus, 0x10FFE, 4), Ok(vec![0xA, 0xB, 0xC, 0xD]));
    assert_eq!(read_vec(&bus, 0x10FFD, 6), Ok(vec![0, 0xA, 0xB, 0xC, 0xD, 0]));
}

#[test]
fn out_of_range_fails_and_modifies_nothing() {
    let mut bus = Bus::new();
    bus.register(Device::Leaf(Ram::new(0x1000)), 0x4000, 0x1000);
    assert_eq!(bus.write(0x4000, &vec![5, 6]), Ok(()));

    // Below, above, and straddling the end of the range.
    assert_eq!(bus.write(0x3FFF, &vec![1]), Err(Error::InvalidAccess));
    assert_eq!(bus.write(0x5000, &vec![1]), Err(Error::InvalidAccess));
    assert_eq!(bus.write(0x4FFF, &vec![1, 2]), Err(Error::InvalidAccess));

    // A failed read leaves the buffer exactly as it was.
    let mut buf = vec![7, 7, 7];
    assert_eq!(bus.read(0x9000, &mut buf), Err(Error::InvalidAccess));
    assert_eq!(buf, vec![7, 7, 7]);

    // Stored bytes are untouched by all those failures.
    assert_eq!(read_vec(&bus, 0x4000, 3), Ok(vec![5, 6, 0]));
}

#[test]
fn same_base_collision_keeps_latest() {
    let mut bus = Bus::new();
    bus.register(Device::Leaf(Ram::new(0x1000)), 0x8000, 0x1000);
    assert_eq!(bus.write(0x8010, &vec![0xEE]), Ok(()));

    // Re-registering at the same base — another size — replaces the
    // entry; the prior device and its bytes are gone.
    bus.register(Device::Leaf(Ram::new(0x2000)), 0x8000, 0x2000);
    assert_eq!(bus.entries.len(), 1);
    assert_eq!(read_vec(&bus, 0x8010, 1), Ok(vec![0]));

    // The replacement's size is in force: the old limit is gone.
    assert!(bus.can_access(0x8000, 0x2000));
    assert_eq!(bus.write(0x9FFF, &vec![1]), Ok(()));
}

#[test]
fn sparse_allocation_tracks_touched_pages() {
    let mut ram = Ram::new(0x100000);
    assert_eq!(ram.page_count(), 0);

    // Never-written offsets read as zero, and reading allocates nothing.
    let mut buf = vec![0xFF; 8];
    assert_eq!(ram.read(0x5000, &mut buf), Ok(()));
    assert_eq!(buf, vec![0; 8]);
    assert_eq!(ram.page_count(), 0);

    // One write touches exactly one page; other pages stay untouched.
    assert_eq!(ram.write(0x5008, &vec![1, 2]), Ok(()));
    assert_eq!(ram.page_count(), 1);
    assert_eq!(ram.read_byte(0x5008), 1);
    assert_eq!(ram.read_byte(0x4FFF), 0);
    assert_eq!(ram.read_byte(0x6000), 0);

    // A write on another page allocates only that page.
    assert_eq!(ram.write(0x80000, &vec![3]), Ok(()));
    assert_eq!(ram.page_count(), 2);
    assert_eq!(ram.read_byte(0x5008), 1);
}

#[test]
fn page_slice_copies_window_and_touches_page() {
    let mut ram = Ram::new(0x10000);
    assert_eq!(ram.write(0, &vec![1, 2, 3]), Ok(()));
    assert_eq!(ram.page_slice(1, 2), vec![2, 3]);

    // Slicing an untouched page allocates it, zero-filled.
    assert_eq!(ram.page_count(), 1);
    assert_eq!(ram.page_slice(0x2000, 3), vec![0, 0, 0]);
    assert_eq!(ram.page_count(), 2);

    // A whole-page window.
    let page = ram.page_slice(0, PAGE_SIZE);
    assert_eq!(page.len() as u64, PAGE_SIZE);
    assert_eq!(&page[..3], &[1, 2, 3]);
}

#[test]
fn nesting_translates_one_level() {
    let mut inner = Bus::new();
    inner.register(Device::Leaf(Ram::new(0x100)), 0, 0x100);
    assert_eq!(inner.write(0x10, &vec![0xAB, 0xCD]), Ok(()));

    let mut parent = Bus::new();
    parent.register(Device::Composite(inner), 0x8000, 0x100);
    parent.register(Device::Leaf(Ram::new(0x100)), 0x9000, 0x100);

    // Global X + k on the parent reads what local k on the inner bus holds.
    assert_eq!(read_vec(&parent, 0x8010, 2), Ok(vec![0xAB, 0xCD]));

    // Writes through the bridge land in the nested store.
    assert_eq!(parent.write(0x8020, &vec![0x77]), Ok(()));
    assert_eq!(read_vec(&parent, 0x8020, 1), Ok(vec![0x77]));

    // The innermost failure propagates unchanged.
    assert_eq!(read_vec(&parent, 0x80FF, 2), Err(Error::InvalidAccess));
}

#[test]
fn dispatch_picks_owning_entry() {
    let mut bus = Bus::new();
    bus.register(Device::Leaf(Ram::new(0x100)), 0x1000, 0x100);
    bus.register(Device::Leaf(Ram::new(0x100)), 0x3000, 0x100);
    bus.register(Device::Leaf(Ram::new(0x100)), 0x2000, 0x100);

    let (rng, idx) = bus.get_device(0x2080).unwrap();
    assert_eq!(rng.base_address, 0x2000);
    assert_eq!(idx, 1);

    let (rng, _) = bus.get_device(0x1000).unwrap();
    assert_eq!(rng.base_address, 0x1000);
    let (rng, _) = bus.get_device(0x30FF).unwrap();
    assert_eq!(rng.base_address, 0x3000);

    assert_eq!(bus.get_device(0x2100), Err(Error::InvalidAccess));
    assert_eq!(bus.get_device(0x0FFF), Err(Error::InvalidAccess));
}

#[test]
fn overlapping_ranges_largest_base_wins() {
    // Registration does not validate overlap; dispatch scans containing
    // ranges from the largest base downward, so the later-based range
    // shadows the earlier one where they overlap.
    let mut bus = Bus::new();
    bus.register(Device::Leaf(Ram::new(0x1000)), 0x1000, 0x1000);
    bus.register(Device::Leaf(Ram::new(0x100)), 0x1800, 0x100);

    let (rng, _) = bus.get_device(0x1850).unwrap();
    assert_eq!(rng.base_address, 0x1800);

    // Past the shadowing range's end the base range owns the address again.
    let (rng, _) = bus.get_device(0x1950).unwrap();
    assert_eq!(rng.base_address, 0x1000);

    // The shadowed and the shadowing store are distinct bytes.
    assert_eq!(bus.write(0x1850, &vec![0x11]), Ok(()));
    assert_eq!(read_vec(&bus, 0x1850, 1), Ok(vec![0x11]));
    assert_eq!(read_vec(&bus, 0x1950, 1), Ok(vec![0]));
}

#[test]
fn range_key_ignores_size() {
    let a = MemoryRange { base_address: 5, size: 1 };
    let b = MemoryRange { base_address: 5, size: 99 };
    let c = MemoryRange { base_address: 6, size: 1 };
    assert!(a == b);
    assert!(a != c);
    assert!(a < c);
    assert!(c > b);

    assert!(a.contains(5));
    assert!(!a.contains(6));
    assert!(b.contains(6));

    // No wrap-around at the top of the address space.
    let top = MemoryRange { base_address: u64::MAX, size: 1 };
    assert!(top.contains(u64::MAX));
    assert!(!top.contains(0));
}

#[test]
fn empty_bus_rejects_everything() {
    let bus = Bus::new();
    assert!(!bus.can_access(0, 1));
    assert_eq!(read_vec(&bus, 0, 1), Err(Error::InvalidAccess));
    let mut bus = bus;
    assert_eq!(bus.write(0, &vec![1]), Err(Error::InvalidAccess));
    assert_eq!(bus.entries.len(), 0);
}
