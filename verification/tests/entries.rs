use paging::addr::PhysicalAddress;
use paging::entry::Entry;
use paging::flags::{
    EntryFlags, Flags, HUGE_PAGE, NO_CACHE, NO_EXECUTE, PRESENT, USER_ACCESSIBLE, WRITABLE,
};

#[test]
fn unused_entry_is_empty() {
    let e = Entry::unused();
    assert!(e.is_unused());
    assert!(e.address().is_none());
    assert_eq!(e.flags().bits(), 0);
}

#[test]
fn set_packs_address_and_forces_present() {
    let mut e = Entry::unused();
    let addr = PhysicalAddress::new(0x5000).unwrap();
    e.set(Some((addr, EntryFlags::from_bits_raw(WRITABLE))));
    assert!(!e.is_unused());
    let back = e.address().unwrap();
    assert_eq!(back.raw(), 0x5000);
    assert!(e.flags().contains(EntryFlags::from_bits_raw(PRESENT | WRITABLE)));

    e.set(None);
    assert!(e.is_unused());
    assert!(e.address().is_none());
}

#[test]
fn address_needs_present() {
    // The present bit decides whether the slot is usable, separately from
    // whether it holds bits.
    let mut e = Entry::unused();
    e.set(Some((PhysicalAddress::new(0x1000).unwrap(), EntryFlags::empty())));
    assert!(e.address().is_some());
}

#[test]
fn permission_conversion_inverts_executable() {
    // A non-executable request must set the no-execute bit; an executable
    // one must leave it clear.
    let nx = EntryFlags::from_flags(Flags {
        writable: true,
        executable: false,
        user_accessible: false,
        cached: true,
    });
    assert_eq!(nx.bits(), PRESENT | WRITABLE | NO_EXECUTE);

    let exec = EntryFlags::from_flags(Flags {
        writable: false,
        executable: true,
        user_accessible: true,
        cached: true,
    });
    assert_eq!(exec.bits(), PRESENT | USER_ACCESSIBLE);
    assert_eq!(exec.bits() & NO_EXECUTE, 0);

    let uncached = EntryFlags::from_flags(Flags {
        writable: false,
        executable: true,
        user_accessible: false,
        cached: false,
    });
    assert_eq!(uncached.bits(), PRESENT | NO_CACHE);
}

#[test]
fn flag_operations() {
    let f = EntryFlags::from_bits_raw(PRESENT | HUGE_PAGE);
    assert!(f.contains(EntryFlags::from_bits_raw(HUGE_PAGE)));
    assert!(!f.contains(EntryFlags::from_bits_raw(WRITABLE)));
    let g = f.union(EntryFlags::from_bits_raw(WRITABLE));
    assert_eq!(g.bits(), PRESENT | HUGE_PAGE | WRITABLE);
    let d: EntryFlags = Default::default();
    assert_eq!(d.bits(), PRESENT);
}
