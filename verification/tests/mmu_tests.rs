//! Tests for the guest memory unit: permission checks, read-after-write
//! promotion, the allocator, and snapshot reset through the dirty log.

use rvemu::mmu::{Mmu, Perm, VirtAddr, PERM_EXEC, PERM_RAW, PERM_READ, PERM_WRITE};
use rvemu::emulator::VmExit;

fn rw_mmu(size: usize) -> Mmu {
    let mut m = Mmu::new(size);
    m.set_permissions(VirtAddr(0), size, Perm(PERM_READ | PERM_WRITE)).unwrap();
    m
}

#[test]
fn new_is_empty_and_sized() {
    let m = Mmu::new(64 * 1024);
    assert_eq!(m.len(), 64 * 1024);
    assert_eq!(m.dirty_len(), 0);
}

#[test]
fn read_write_round_trip_all_widths() {
    let mut m = rw_mmu(64 * 1024);
    for &(n, v) in &[
        (1usize, 0xAAu64),
        (2, 0xBEEF),
        (4, 0xDEAD_BEEF),
        (8, 0x0123_4567_89AB_CDEF),
    ] {
        m.write_word(VirtAddr(0x100), v, n).unwrap();
        assert_eq!(m.read_word(VirtAddr(0x100), n).unwrap(), v);
    }
}

#[test]
fn unaligned_round_trip_and_little_endian_layout() {
    let mut m = rw_mmu(64 * 1024);
    m.write_word(VirtAddr(0x201), 0x1122_3344, 4).unwrap();
    assert_eq!(m.read_word(VirtAddr(0x201), 4).unwrap(), 0x1122_3344);
    assert_eq!(m.read_word(VirtAddr(0x201), 1).unwrap(), 0x44);
    assert_eq!(m.read_word(VirtAddr(0x204), 1).unwrap(), 0x11);
}

#[test]
fn out_of_bounds_is_address_miss() {
    let m = rw_mmu(4096);
    assert_eq!(
        m.read_into(VirtAddr(4093), 8),
        Err(VmExit::AddressMiss(VirtAddr(4093), 8))
    );
}

#[test]
fn no_read_permission_is_read_fault_at_first_bad_byte() {
    let mut m = Mmu::new(64 * 1024);
    m.set_permissions(VirtAddr(0x100), 4, Perm(PERM_READ)).unwrap();
    // bytes 0x100..0x104 readable, 0x104 is not
    assert_eq!(
        m.read_into(VirtAddr(0x100), 8),
        Err(VmExit::ReadFault(VirtAddr(0x104)))
    );
}

#[test]
fn raw_byte_reads_as_uninit_fault_with_exact_address() {
    let mut m = Mmu::new(64 * 1024);
    m.set_permissions(VirtAddr(0x300), 16, Perm(PERM_WRITE | PERM_RAW)).unwrap();
    // a never-written read-after-write byte faults as uninitialized
    assert_eq!(
        m.read_into(VirtAddr(0x305), 1),
        Err(VmExit::UninitFault(VirtAddr(0x305)))
    );
}

#[test]
fn store_to_raw_byte_promotes_to_readable() {
    let mut m = Mmu::new(64 * 1024);
    m.set_permissions(VirtAddr(0x300), 16, Perm(PERM_WRITE | PERM_RAW)).unwrap();
    m.write_word(VirtAddr(0x308), 0xAA, 1).unwrap();
    assert_eq!(m.read_word(VirtAddr(0x308), 1).unwrap(), 0xAA);
    // the neighbouring byte is still uninitialized
    assert_eq!(
        m.read_into(VirtAddr(0x309), 1),
        Err(VmExit::UninitFault(VirtAddr(0x309)))
    );
}

#[test]
fn write_without_permission_is_write_fault() {
    let mut m = Mmu::new(64 * 1024);
    m.set_permissions(VirtAddr(0x400), 4, Perm(PERM_READ)).unwrap();
    assert_eq!(
        m.write_word(VirtAddr(0x400), 7, 4),
        Err(VmExit::WriteFault(VirtAddr(0x400)))
    );
}

#[test]
fn allocate_is_block_aligned_and_writable() {
    let mut m = Mmu::new(1024 * 1024);
    let base = m.allocate(16).unwrap();
    assert_eq!(base.0 % 4096, 0);
    let second = m.allocate(10).unwrap();
    assert!(second.0 >= base.0 + 16);
    assert_eq!(second.0 % 4096, 0);
    m.write_word(VirtAddr(base.0 + 15), 0x5A, 1).unwrap();
    assert_eq!(m.read_word(VirtAddr(base.0 + 15), 1).unwrap(), 0x5A);
    assert_eq!(m.get_alc(base), Some(16));
    assert_eq!(m.get_alc(VirtAddr(base.0 + 1)), None);
}

#[test]
fn allocate_out_of_memory_fails() {
    let mut m = Mmu::new(64 * 1024);
    assert_eq!(m.allocate(0), None);
    assert!(m.allocate(1 << 20).is_none());
}

#[test]
fn free_revokes_access_and_double_free_faults() {
    let mut m = Mmu::new(1024 * 1024);
    let base = m.allocate(16).unwrap();
    m.write_word(VirtAddr(base.0 + 4), 1, 1).unwrap();
    m.free(base).unwrap();
    // write at base + 4 now faults at exactly that address
    assert_eq!(
        m.write_word(VirtAddr(base.0 + 4), 1, 1),
        Err(VmExit::WriteFault(VirtAddr(base.0 + 4)))
    );
    assert_eq!(m.free(base), Err(VmExit::InvalidFree(base)));
    assert_eq!(
        m.free(VirtAddr(base.0 + 4)),
        Err(VmExit::InvalidFree(VirtAddr(base.0 + 4)))
    );
}

#[test]
fn free_keeps_exec_untouched() {
    let mut m = Mmu::new(1024 * 1024);
    let base = m.allocate(8).unwrap();
    m.set_permissions(base, 8, Perm(PERM_WRITE | PERM_EXEC)).unwrap();
    m.free(base).unwrap();
    // execute permission survives a free: a 4-byte fetch-style read with
    // the execute bit still sees the bytes
    assert!(m.peek(base, 4, Perm(PERM_EXEC)).is_ok());
    assert!(m.peek(base, 4, Perm(PERM_READ)).is_err());
}

#[test]
fn fork_and_reset_restore_bytes_and_empty_dirty_log() {
    let mut parent = rw_mmu(256 * 1024);
    parent.write_word(VirtAddr(0x1000), 0x77, 1).unwrap();
    let mut child = parent.fork();
    assert_eq!(child.dirty_len(), 0);
    child.write_word(VirtAddr(0x1000), 0x1234, 2).unwrap();
    child.write_word(VirtAddr(0x9000), 0xFF, 1).unwrap();
    assert!(child.dirty_len() >= 1);
    child.reset(&parent);
    assert_eq!(child.dirty_len(), 0);
    assert_eq!(child.read_word(VirtAddr(0x1000), 1).unwrap(), 0x77);
    assert_eq!(child.read_word(VirtAddr(0x9000), 1).unwrap(), 0x00);
}

#[test]
fn reset_restores_permissions_and_allocator() {
    let parent = Mmu::new(256 * 1024);
    let mut child = parent.fork();
    let base = child.allocate(32).unwrap();
    child.write_word(base, 1, 1).unwrap();
    child.reset(&parent);
    // the allocation is gone and its permissions are back to none
    assert_eq!(child.get_alc(base), None);
    assert!(child.write_word(base, 1, 1).is_err());
    // allocating again hands out the same base as the parent would
    assert_eq!(child.allocate(32), Some(base));
}

#[test]
fn repeated_reset_against_same_snapshot() {
    let parent = rw_mmu(128 * 1024);
    let mut child = parent.fork();
    for round in 0..3u64 {
        child.write_word(VirtAddr(0x2000), round + 1, 8).unwrap();
        assert_eq!(child.read_word(VirtAddr(0x2000), 8).unwrap(), round + 1);
        child.reset(&parent);
        assert_eq!(child.read_word(VirtAddr(0x2000), 8).unwrap(), 0);
        assert_eq!(child.dirty_len(), 0);
    }
}

#[test]
fn load_section_writes_image_pads_and_sets_permissions() {
    let mut m = Mmu::new(256 * 1024);
    let data = [1u8, 2, 3, 4];
    let sec = rvemu::mmu::Section {
        file_off: 0,
        virt_addr: VirtAddr(0x1000),
        file_size: 4,
        mem_size: 16,
        permissions: Perm(PERM_READ | PERM_EXEC),
    };
    m.load_section(&data, &sec).unwrap();
    assert_eq!(m.read_word(VirtAddr(0x1000), 4).unwrap(), 0x04030201);
    assert_eq!(m.read_word(VirtAddr(0x1004), 4).unwrap(), 0);
    // the section is not writable
    assert!(m.write_word(VirtAddr(0x1000), 1, 1).is_err());
    // the allocator moved past the image
    let base = m.allocate(8).unwrap();
    assert!(base.0 >= 0x2000);
}

#[test]
fn peek_checks_requested_permission() {
    let mut m = Mmu::new(64 * 1024);
    m.set_permissions(VirtAddr(0x500), 8, Perm(PERM_READ)).unwrap();
    assert!(m.peek(VirtAddr(0x500), 8, Perm(PERM_READ)).is_ok());
    assert!(m.peek(VirtAddr(0x500), 8, Perm(PERM_EXEC)).is_err());
}
