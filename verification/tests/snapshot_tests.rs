use tartiflette_vm::memory::MemoryError;
use tartiflette_vm::memory::PagePermissions;
use tartiflette_vm::memory::VirtualMemory;
use tartiflette_vm::memory::PAGE_SIZE;
use tartiflette_vm::vm::load_mapping;
use tartiflette_vm::SnapshotMapping;

fn rw() -> PagePermissions {
    PagePermissions { read: true, write: true, execute: false }
}

#[test]
fn mapping_copies_dump_bytes_at_its_physical_offset() {
    let mut mem = VirtualMemory::new(16 * PAGE_SIZE).unwrap();
    let dump: Vec<u8> = (0u8..=255).cycle().take(2 * PAGE_SIZE).collect();
    let m = SnapshotMapping {
        start: 0x2000,
        end: 0x2800,
        permissions: rw(),
        physical_offset: 4,
    };
    load_mapping(&mut mem, m, &dump).unwrap();
    // The mapped bytes mirror the dump, shifted by the physical offset.
    let got = mem.read(0x2000, 16).unwrap();
    assert_eq!(got, dump[4..20].to_vec());
    // The range is rounded up to a whole page, all of it filled.
    let tail = mem.read(0x2000 + PAGE_SIZE as u64 - 4, 4).unwrap();
    assert_eq!(tail, dump[PAGE_SIZE - 4 + 4..PAGE_SIZE + 4].to_vec());
    let maps = mem.mappings();
    assert!(maps.iter().any(|mp| mp.address == 0x2000 && mp.permissions == rw()));
}

#[test]
fn dump_shorter_than_the_mapping_reads_as_zero() {
    let mut mem = VirtualMemory::new(16 * PAGE_SIZE).unwrap();
    let dump = vec![0xabu8; 16];
    let m = SnapshotMapping {
        start: 0x5000,
        end: 0x5010,
        permissions: rw(),
        physical_offset: 8,
    };
    load_mapping(&mut mem, m, &dump).unwrap();
    assert_eq!(mem.read(0x5000, 8).unwrap(), vec![0xab; 8]);
    // Past the dump's end the page reads as zero.
    assert_eq!(mem.read(0x5008, 8).unwrap(), vec![0; 8]);
}

#[test]
fn unaligned_mapping_start_is_refused() {
    let mut mem = VirtualMemory::new(16 * PAGE_SIZE).unwrap();
    let m = SnapshotMapping {
        start: 0x2100,
        end: 0x2200,
        permissions: rw(),
        physical_offset: 0,
    };
    assert!(matches!(
        load_mapping(&mut mem, m, &[]),
        Err(MemoryError::Unaligned(0x2100))
    ));
}

#[test]
fn overlapping_mapping_is_refused_and_leaves_content() {
    let mut mem = VirtualMemory::new(16 * PAGE_SIZE).unwrap();
    let dump = vec![0x11u8; PAGE_SIZE];
    let m = SnapshotMapping {
        start: 0x3000,
        end: 0x3000 + PAGE_SIZE as u64,
        permissions: rw(),
        physical_offset: 0,
    };
    load_mapping(&mut mem, m, &dump).unwrap();
    let again = SnapshotMapping {
        start: 0x3000,
        end: 0x3000 + 8,
        permissions: rw(),
        physical_offset: 0,
    };
    assert!(matches!(
        load_mapping(&mut mem, again, &[]),
        Err(MemoryError::AlreadyMapped(0x3000))
    ));
    assert_eq!(mem.read(0x3000, 4).unwrap(), vec![0x11; 4]);
}
