use tartiflette_vm::dirty::restore_dirty_pages;
use tartiflette_vm::memory::MemoryError;
use tartiflette_vm::memory::VirtualMemory;
use tartiflette_vm::memory::PAGE_SIZE;

fn filled(pages: usize, seed: u8) -> VirtualMemory {
    let mut mem = VirtualMemory::new(pages * PAGE_SIZE).unwrap();
    for p in 0..pages {
        let byte = seed.wrapping_add(p as u8);
        mem.write_phys(p * PAGE_SIZE, &[byte; 8]).unwrap();
    }
    mem
}

fn page_head(mem: &VirtualMemory, p: usize) -> Vec<u8> {
    mem.read_phys(p * PAGE_SIZE, 8).unwrap()
}

#[test]
fn marked_pages_come_from_the_reference() {
    let mut a = filled(8, 0x10);
    let b = filled(8, 0x80);
    // Pages 0 and 2 marked dirty.
    let bitmap = vec![0b101u64];
    restore_dirty_pages(&mut a, &b, &bitmap).unwrap();
    assert_eq!(page_head(&a, 0), page_head(&b, 0));
    assert_eq!(page_head(&a, 2), page_head(&b, 2));
    // Page 1 keeps its own bytes.
    assert_eq!(page_head(&a, 1), vec![0x11; 8]);
}

#[test]
fn reset_reaches_the_reference_when_only_logged_pages_diverged() {
    // A starts as a copy of B, then diverges on page 3 only, and the log
    // marks page 3: afterwards every page equals B's.
    let b = filled(8, 0x40);
    let mut a = b.duplicate();
    a.write_phys(3 * PAGE_SIZE, &[0xee; 8]).unwrap();
    let bitmap = vec![0b1000u64];
    restore_dirty_pages(&mut a, &b, &bitmap).unwrap();
    for p in 0..8 {
        assert_eq!(page_head(&a, p), page_head(&b, p), "page {}", p);
    }
}

#[test]
fn applying_the_same_restore_twice_changes_nothing() {
    let mut a = filled(8, 0x10);
    let b = filled(8, 0x80);
    let bitmap = vec![0b1101u64];
    restore_dirty_pages(&mut a, &b, &bitmap).unwrap();
    let after_once: Vec<u8> = a.read_phys(0, 8 * PAGE_SIZE).unwrap();
    restore_dirty_pages(&mut a, &b, &bitmap).unwrap();
    let after_twice: Vec<u8> = a.read_phys(0, 8 * PAGE_SIZE).unwrap();
    assert_eq!(after_once, after_twice);
}

#[test]
fn empty_bitmap_restores_nothing() {
    let mut a = filled(4, 0x10);
    let b = filled(4, 0x80);
    let before = a.read_phys(0, 4 * PAGE_SIZE).unwrap();
    restore_dirty_pages(&mut a, &b, &vec![0u64]).unwrap();
    assert_eq!(a.read_phys(0, 4 * PAGE_SIZE).unwrap(), before);
}

#[test]
fn stray_bit_beyond_memory_is_refused() {
    let mut a = filled(4, 0x10);
    let b = filled(4, 0x80);
    let before = a.read_phys(0, 4 * PAGE_SIZE).unwrap();
    // Bit 7 marks a page past the four that exist.
    let r = restore_dirty_pages(&mut a, &b, &vec![0b1000_0001u64]);
    assert!(matches!(r, Err(MemoryError::OutOfRange(0))));
    assert_eq!(a.read_phys(0, 4 * PAGE_SIZE).unwrap(), before);
}

#[test]
fn bits_in_later_words_restore_later_pages() {
    let mut a = filled(130, 0x01);
    let b = filled(130, 0x90);
    // Page 129 lives in word 2, bit 1.
    let bitmap = vec![0u64, 0u64, 0b10u64];
    restore_dirty_pages(&mut a, &b, &bitmap).unwrap();
    assert_eq!(page_head(&a, 129), page_head(&b, 129));
    assert_eq!(page_head(&a, 128), vec![0x81; 8]);
}
