use os_kernel::{
    page_count, read_u8_slice, sys_mmap, sys_munmap, sys_sbrk, write_u8_slice, AddressSpace,
    MapPermission, MEMORY_FRAMES, PAGE_SIZE,
};

const HEAP: usize = 0x8000_0000;

fn space() -> AddressSpace {
    AddressSpace::new(HEAP)
}

fn mapped_pages(s: &AddressSpace) -> Vec<(usize, u8)> {
    let mut v: Vec<(usize, u8)> = s.page_table.iter().map(|(k, e)| (*k, e.perm.bits)).collect();
    v.sort();
    v
}

#[test]
fn mmap_overlap_then_unmap_then_remap() {
    let mut s = space();
    assert_eq!(sys_mmap(&mut s, 0x1000, 4096, 0b011), 0);
    assert_eq!(sys_mmap(&mut s, 0x1000, 4096, 0b001), -1);
    assert_eq!(sys_munmap(&mut s, 0x1000, 4096), 0);
    assert_eq!(sys_mmap(&mut s, 0x1000, 4096, 0b001), 0);
    assert_eq!(mapped_pages(&s), vec![(1, 2 + 16)]);
}

#[test]
fn mmap_sets_flags_from_port() {
    let mut s = space();
    assert_eq!(sys_mmap(&mut s, 0x1000, 4096, 0b011), 0);
    assert_eq!(mapped_pages(&s), vec![(1, 2 + 4 + 16)]);
    assert_eq!(sys_mmap(&mut s, 0x2000, 1, 0b100), 0);
    assert_eq!(mapped_pages(&s), vec![(1, 2 + 4 + 16), (2, 8 + 16)]);
}

#[test]
fn mmap_rounds_length_up_to_pages() {
    let mut s = space();
    assert_eq!(sys_mmap(&mut s, 0x10000, 4097, 0b111), 0);
    let pages: Vec<usize> = mapped_pages(&s).iter().map(|p| p.0).collect();
    assert_eq!(pages, vec![0x10, 0x11]);
    assert_eq!(s.frames.len(), 2 * PAGE_SIZE);
}

#[test]
fn mmap_then_munmap_restores_regions() {
    let mut s = space();
    assert_eq!(sys_mmap(&mut s, 0x4000, 4096, 0b001), 0);
    let before = mapped_pages(&s);
    assert_eq!(sys_mmap(&mut s, 0x10000, 3 * 4096, 0b011), 0);
    assert_eq!(sys_munmap(&mut s, 0x10000, 3 * 4096), 0);
    assert_eq!(mapped_pages(&s), before);
}

#[test]
fn mmap_zero_length_maps_nothing() {
    let mut s = space();
    assert_eq!(sys_mmap(&mut s, 0x1000, 0, 0b001), 0);
    assert!(s.page_table.is_empty());
    assert_eq!(sys_munmap(&mut s, 0x1000, 0), 0);
}

#[test]
fn misaligned_start_is_rejected() {
    let mut s = space();
    assert_eq!(sys_mmap(&mut s, 0x1000, 4096, 0b011), 0);
    let before = mapped_pages(&s);
    assert_eq!(sys_mmap(&mut s, 0x1001, 4096, 0b011), -1);
    assert_eq!(sys_mmap(&mut s, 0x2800, 10, 0b001), -1);
    assert_eq!(sys_munmap(&mut s, 0x1001, 4096), -1);
    assert_eq!(mapped_pages(&s), before);
}

#[test]
fn bad_port_is_rejected() {
    let mut s = space();
    assert_eq!(sys_mmap(&mut s, 0x1000, 4096, 0), -1);
    assert_eq!(sys_mmap(&mut s, 0x1000, 4096, 0b1000), -1);
    assert_eq!(sys_mmap(&mut s, 0x1000, 4096, 0b1111), -1);
    assert_eq!(sys_mmap(&mut s, 0x1000, 4096, usize::MAX), -1);
    assert!(s.page_table.is_empty());
}

#[test]
fn munmap_with_gap_removes_nothing() {
    let mut s = space();
    assert_eq!(sys_mmap(&mut s, 0x1000, 4096, 0b011), 0);
    assert_eq!(sys_mmap(&mut s, 0x3000, 4096, 0b011), 0);
    let before = mapped_pages(&s);
    assert_eq!(sys_munmap(&mut s, 0x1000, 3 * 4096), -1);
    assert_eq!(mapped_pages(&s), before);
    assert_eq!(sys_munmap(&mut s, 0x5000, 4096), -1);
    assert_eq!(mapped_pages(&s), before);
}

#[test]
fn mmap_range_past_address_space_is_rejected() {
    let mut s = space();
    let top = usize::MAX / PAGE_SIZE * PAGE_SIZE;
    assert_eq!(sys_mmap(&mut s, top, 4096, 0b011), -1);
    assert_eq!(sys_munmap(&mut s, top, 4096), -1);
    assert!(s.page_table.is_empty());
}

#[test]
fn mmap_beyond_physical_memory_is_rejected() {
    let mut s = space();
    assert_eq!(sys_mmap(&mut s, 0x1000, (MEMORY_FRAMES + 1) * PAGE_SIZE, 0b011), -1);
    assert!(s.page_table.is_empty());
    assert_eq!(s.frames.len(), 0);
}

#[test]
fn copy_out_across_page_boundary_reads_back() {
    let mut s = space();
    assert_eq!(sys_mmap(&mut s, 0x1000, 2 * 4096, 0b011), 0);
    let value: [u8; 8] = [1, 2, 3, 4, 5, 6, 7, 8];
    let va = 0x2000 - 4;
    let ranges = s.translate(va, 8, true).unwrap();
    assert_eq!(ranges.len(), 2);
    assert_eq!(ranges[0].1, 4);
    assert_eq!(ranges[1].1, 4);
    assert!(s.copy_out(va, &value));
    assert_eq!(s.copy_in(va, 8).unwrap(), value.to_vec());
    assert_eq!(s.copy_in(va + 4, 4).unwrap(), vec![5, 6, 7, 8]);
}

#[test]
fn copy_out_to_unmapped_or_read_only_memory_fails() {
    let mut s = space();
    assert_eq!(sys_mmap(&mut s, 0x1000, 4096, 0b001), 0);
    assert!(!s.copy_out(0x1000, &[1, 2]));
    assert!(!s.copy_out(0x3000, &[1, 2]));
    assert!(s.translate(0x1ffe, 4, false).is_none());
    assert_eq!(s.copy_in(0x1000, 2).unwrap(), vec![0, 0]);
}

#[test]
fn write_and_read_slices_follow_ranges() {
    let mut mem = vec![0u8; 10];
    let ranges = vec![(7usize, 2usize), (1usize, 3usize)];
    write_u8_slice(&mut mem, &[9, 8, 7, 6, 5], &ranges);
    assert_eq!(mem, vec![0, 7, 6, 5, 0, 0, 0, 9, 8, 0]);
    assert_eq!(read_u8_slice(&mem, &ranges), vec![9, 8, 7, 6, 5]);
}

#[test]
fn permission_from_port() {
    assert_eq!(MapPermission::from_port(1).bits, 0b10010);
    assert_eq!(MapPermission::from_port(7).bits, 0b11110);
    let p = MapPermission::from_port(0b101);
    assert!(p.readable());
    assert!(!p.writable());
    assert!(p.user());
}

#[test]
fn page_count_rounds_up() {
    assert_eq!(page_count(0), 0);
    assert_eq!(page_count(1), 1);
    assert_eq!(page_count(4096), 1);
    assert_eq!(page_count(4097), 2);
    assert_eq!(page_count(usize::MAX), usize::MAX / 4096 + 1);
}

#[test]
fn sbrk_grows_and_shrinks_heap() {
    let mut s = space();
    assert_eq!(sys_sbrk(&mut s, 100), HEAP as isize);
    assert_eq!(s.program_brk, HEAP + 100);
    assert_eq!(mapped_pages(&s), vec![(HEAP / 4096, 22)]);
    assert_eq!(sys_sbrk(&mut s, 8192), (HEAP + 100) as isize);
    assert_eq!(mapped_pages(&s).len(), 3);
    assert_eq!(sys_sbrk(&mut s, -8192), (HEAP + 8292) as isize);
    assert_eq!(mapped_pages(&s).len(), 1);
    assert_eq!(sys_sbrk(&mut s, -100), (HEAP + 100) as isize);
    assert!(s.page_table.is_empty());
    assert_eq!(s.program_brk, HEAP);
}

#[test]
fn sbrk_below_heap_bottom_is_rejected() {
    let mut s = space();
    assert_eq!(sys_sbrk(&mut s, -1), -1);
    assert_eq!(s.program_brk, HEAP);
    assert_eq!(sys_sbrk(&mut s, 10), HEAP as isize);
    assert_eq!(sys_sbrk(&mut s, -11), -1);
    assert_eq!(s.program_brk, HEAP + 10);
}

#[test]
fn sbrk_into_mapped_region_is_rejected() {
    let mut s = space();
    assert_eq!(sys_mmap(&mut s, HEAP + 4096, 4096, 0b001), 0);
    assert_eq!(sys_sbrk(&mut s, 4097), -1);
    assert_eq!(s.program_brk, HEAP);
    assert_eq!(sys_sbrk(&mut s, 4096), HEAP as isize);
}
