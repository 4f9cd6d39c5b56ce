use tartiflette_vm::memory::MemoryError;
use tartiflette_vm::memory::PagePermissions;
use tartiflette_vm::memory::VirtualMemory;
use tartiflette_vm::memory::PAGE_SIZE;

fn rw() -> PagePermissions {
    PagePermissions { read: true, write: true, execute: false }
}

fn rx() -> PagePermissions {
    PagePermissions { read: true, write: false, execute: true }
}

#[test]
fn new_rounds_up_and_reserves_root() {
    let mem = VirtualMemory::new(10 * PAGE_SIZE + 1).unwrap();
    assert_eq!(mem.host_memory_size(), 11 * PAGE_SIZE);
    assert_eq!(mem.page_directory(), 0);
    assert!(mem.mappings().is_empty());
}

#[test]
fn mmap_write_read_roundtrip() {
    let mut mem = VirtualMemory::new(16 * PAGE_SIZE).unwrap();
    mem.mmap(0x1000, PAGE_SIZE, rw()).unwrap();
    let data = [0xde, 0xad, 0xbe, 0xef];
    mem.write(0x1000, &data).unwrap();
    let back = mem.read(0x1000, 4).unwrap();
    assert_eq!(back, vec![0xde, 0xad, 0xbe, 0xef]);
    // Fresh pages read as zero around the written bytes.
    assert_eq!(mem.read(0x1004, 4).unwrap(), vec![0, 0, 0, 0]);
}

#[test]
fn host_write_ignores_guest_permissions() {
    // The shellcode pattern: the host plants code on a page the guest may
    // only read and execute.
    let mut mem = VirtualMemory::new(16 * PAGE_SIZE).unwrap();
    mem.mmap(0x1337000, PAGE_SIZE, rx()).unwrap();
    mem.write(0x1337000, &[0x48, 0x01, 0xc2, 0xcc]).unwrap();
    assert_eq!(mem.read(0x1337000, 4).unwrap(), vec![0x48, 0x01, 0xc2, 0xcc]);
}

#[test]
fn write_spanning_two_pages() {
    let mut mem = VirtualMemory::new(16 * PAGE_SIZE).unwrap();
    mem.mmap(0x2000, 2 * PAGE_SIZE, rw()).unwrap();
    let data: Vec<u8> = (0..16).collect();
    mem.write(0x2000 + PAGE_SIZE as u64 - 8, &data).unwrap();
    let back = mem.read(0x2000 + PAGE_SIZE as u64 - 8, 16).unwrap();
    assert_eq!(back, data);
}

#[test]
fn unmapped_read_reports_first_missing_address() {
    let mut mem = VirtualMemory::new(16 * PAGE_SIZE).unwrap();
    mem.mmap(0x1000, PAGE_SIZE, rw()).unwrap();
    // The range starts on a mapped page and runs onto an unmapped one.
    match mem.read(0x1ffc, 8) {
        Err(MemoryError::Unmapped(a)) => assert_eq!(a, 0x2000),
        other => panic!("expected an unmapped error, got {:?}", other),
    }
    // A range that starts unmapped reports its own first byte.
    match mem.read(0x3004, 4) {
        Err(MemoryError::Unmapped(a)) => assert_eq!(a, 0x3004),
        other => panic!("expected an unmapped error, got {:?}", other),
    }
}

#[test]
fn mmap_rejects_unaligned_and_overlap() {
    let mut mem = VirtualMemory::new(16 * PAGE_SIZE).unwrap();
    assert_eq!(
        mem.mmap(0x1001, PAGE_SIZE, rw()),
        Err(MemoryError::Unaligned(0x1001))
    );
    mem.mmap(0x1000, PAGE_SIZE, rw()).unwrap();
    assert_eq!(
        mem.mmap(0x1000, PAGE_SIZE, rw()),
        Err(MemoryError::AlreadyMapped(0x1000))
    );
}

#[test]
fn mmap_runs_out_of_frames() {
    // Eight frames: the reserved root, two backing frames and three page
    // tables for the first mapping, then two more backing frames that
    // share those tables.
    let mut mem = VirtualMemory::new(8 * PAGE_SIZE).unwrap();
    mem.mmap(0x1000, 2 * PAGE_SIZE, rw()).unwrap();
    mem.mmap(0x5000, PAGE_SIZE, rw()).unwrap();
    mem.mmap(0x7000, PAGE_SIZE, rw()).unwrap();
    // The pool is dry now.
    assert_eq!(
        mem.mmap(0x9000, PAGE_SIZE, rw()),
        Err(MemoryError::OutOfMemory)
    );
}

#[test]
fn mmap_emits_the_page_table_chain() {
    let mut mem = VirtualMemory::new(16 * PAGE_SIZE).unwrap();
    mem.mmap(0x1000, PAGE_SIZE, rw()).unwrap();
    // The backing frame is 1; the pointer table, directory and page table
    // take frames 2, 3 and 4.
    let root = u64::from_le_bytes(mem.read_phys(0, 8).unwrap().try_into().unwrap());
    assert_eq!(root, (2 << 12) | 3, "root entry points at the pointer table");
    let pdpt0 = u64::from_le_bytes(
        mem.read_phys(2 * PAGE_SIZE, 8).unwrap().try_into().unwrap(),
    );
    assert_eq!(pdpt0, (3 << 12) | 3);
    let pd0 = u64::from_le_bytes(
        mem.read_phys(3 * PAGE_SIZE, 8).unwrap().try_into().unwrap(),
    );
    assert_eq!(pd0, (4 << 12) | 3);
    // Slot 1 of the page table maps the page: present, writable,
    // no-execute.
    let pte = u64::from_le_bytes(
        mem.read_phys(4 * PAGE_SIZE + 8, 8).unwrap().try_into().unwrap(),
    );
    assert_eq!(pte, (1u64 << 63) | (1 << 12) | 3);
    // An executable read-only page gets neither the write nor the
    // no-execute bit.
    mem.mmap(0x2000, PAGE_SIZE, PagePermissions { read: true, write: false, execute: true })
        .unwrap();
    let pte2 = u64::from_le_bytes(
        mem.read_phys(4 * PAGE_SIZE + 16, 8).unwrap().try_into().unwrap(),
    );
    assert_eq!(pte2, (5 << 12) | 1);
}

#[test]
fn dirty_log_bitmap_marks_pages_by_frame() {
    // The mechanism run() uses to fold guest writes into the software
    // dirty flags: the hypervisor bitmap indexes backing frames.
    let mut mem = VirtualMemory::new(16 * PAGE_SIZE).unwrap();
    mem.mmap(0x1337000, PAGE_SIZE, rw()).unwrap();
    mem.mmap(0xdeadb000, PAGE_SIZE, rw()).unwrap();
    // The second page's backing frame is 5 (after frame 1 and the three
    // tables of the first mapping).
    mem.mark_dirty_frames(&vec![1u64 << 5]);
    let dirty = mem.dirty_mappings();
    assert!(dirty.iter().any(|m| m.address == 0xdeadb000));
    assert!(!dirty.iter().any(|m| m.address == 0x1337000));
    mem.clear_dirty();
    assert_eq!(mem.dirty_mappings().len(), 0);
}

#[test]
fn typed_value_roundtrip_is_little_endian() {
    let mut mem = VirtualMemory::new(16 * PAGE_SIZE).unwrap();
    mem.mmap(0x4000, PAGE_SIZE, rw()).unwrap();
    mem.write_val(0x4100, 0x0807060504030201u64).unwrap();
    assert_eq!(
        mem.read(0x4100, 8).unwrap(),
        vec![0x01, 0x02, 0x03, 0x04, 0x05, 0x06, 0x07, 0x08]
    );
    assert_eq!(mem.read_val(0x4100).unwrap(), 0x0807060504030201);
    // Unaligned typed access works too.
    mem.write_val(0x4103, 0x1122334455667788u64).unwrap();
    assert_eq!(mem.read_val(0x4103).unwrap(), 0x1122334455667788);
}

#[test]
fn dirty_flags_follow_writes_and_clear() {
    let mut mem = VirtualMemory::new(16 * PAGE_SIZE).unwrap();
    mem.mmap(0x1337000, PAGE_SIZE, rx()).unwrap();
    mem.mmap(0xdeadb000, PAGE_SIZE, rw()).unwrap();
    mem.write(0xdeadb000, &[0x42; 4]).unwrap();
    let dirty = mem.dirty_mappings();
    assert!(dirty.iter().any(|m| m.address == 0xdeadb000));
    assert!(!dirty.iter().any(|m| m.address == 0x1337000));
    mem.clear_dirty();
    assert_eq!(mem.dirty_mappings().len(), 0);
}

#[test]
fn mappings_report_addresses_and_rights() {
    let mut mem = VirtualMemory::new(16 * PAGE_SIZE).unwrap();
    mem.mmap(0x1000, PAGE_SIZE, rw()).unwrap();
    mem.mmap(0x5000, PAGE_SIZE, rx()).unwrap();
    let maps = mem.mappings();
    assert_eq!(maps.len(), 2);
    assert_eq!(maps[0].address, 0x1000);
    assert_eq!(maps[0].permissions, rw());
    assert!(!maps[0].dirty);
    assert_eq!(maps[1].address, 0x5000);
    assert_eq!(maps[1].permissions, rx());
}

#[test]
fn physical_access_bypasses_the_page_table() {
    let mut mem = VirtualMemory::new(4 * PAGE_SIZE).unwrap();
    mem.write_phys(2 * PAGE_SIZE, &[1, 2, 3]).unwrap();
    assert_eq!(mem.read_phys(2 * PAGE_SIZE, 3).unwrap(), vec![1, 2, 3]);
    // Physical writes leave the dirty flags alone.
    assert_eq!(mem.dirty_mappings().len(), 0);
    match mem.read_phys(4 * PAGE_SIZE - 1, 2) {
        Err(MemoryError::OutOfRange(_)) => (),
        other => panic!("expected an out-of-range error, got {:?}", other),
    }
}

#[test]
fn duplicate_is_independent() {
    let mut mem = VirtualMemory::new(8 * PAGE_SIZE).unwrap();
    mem.mmap(0x1000, PAGE_SIZE, rw()).unwrap();
    mem.write(0x1000, &[7, 7, 7]).unwrap();
    let mut copy = mem.duplicate();
    assert_eq!(copy.read(0x1000, 3).unwrap(), vec![7, 7, 7]);
    copy.write(0x1000, &[9]).unwrap();
    assert_eq!(mem.read(0x1000, 1).unwrap(), vec![7]);
    assert_eq!(copy.read(0x1000, 1).unwrap(), vec![9]);
}
