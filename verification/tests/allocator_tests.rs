use slab_allocator::Atomics;
use slab_allocator::Section;
use slab_allocator::SlabAllocator;

#[test]
fn initialise() {
    let small_buf = [0u8; 10];
    assert!(SlabAllocator::new(vec![Section::new(100, Atomics::U8(0))], &small_buf[..]).is_err());

    let large_buf = [0u8; 1024];
    assert!(SlabAllocator::new(vec![Section::new(100, Atomics::U8(0))], &large_buf[..]).is_ok());

    let exact_buf = [0u8; 800];
    assert!(SlabAllocator::new(vec![Section::new(100, Atomics::U8(0))], &exact_buf[..]).is_ok());
}

#[test]
fn boxes() {
    let mut buf = [0u8; 1024];
    let size = std::mem::size_of::<std::boxed::Box<u32>>();
    let align = std::mem::align_of::<std::boxed::Box<u32>>();
    let mut allocator =
        SlabAllocator::new(vec![Section::new(size, Atomics::U64(0))], &buf[..])
            .expect("Creation of allocator failed");

    // Like repeatedly rebinding a boxed value: each round allocates a slot
    // for the new value, stores it, and releases the previous slot.
    let (mut cur, _) = allocator.allocate(size, align).expect("allocation failed");
    buf[cur..cur + 4].copy_from_slice(&0u32.to_le_bytes());
    for i in 0..u64::BITS {
        let (next, _) = allocator.allocate(size, align).expect("allocation failed");
        buf[next..next + 4].copy_from_slice(&i.to_le_bytes());
        allocator
            .deallocate(cur)
            .expect("Could not deallocate block");
        cur = next;
    }
    let held = u32::from_le_bytes([buf[cur], buf[cur + 1], buf[cur + 2], buf[cur + 3]]);
    assert_eq!(held, 63);
}

#[test]
fn one_byte_short_fails_exact_fit_succeeds() {
    // Two sections need 8*4 + 16*2 = 64 bytes together.
    let short_buf = [0u8; 63];
    assert!(SlabAllocator::new(
        vec![Section::new(4, Atomics::U8(0)), Section::new(2, Atomics::U16(0))],
        &short_buf[..],
    )
    .is_err());

    let exact_buf = [0u8; 64];
    assert!(SlabAllocator::new(
        vec![Section::new(4, Atomics::U8(0)), Section::new(2, Atomics::U16(0))],
        &exact_buf[..],
    )
    .is_ok());
}

#[test]
fn first_fit_serves_from_first_large_enough_section() {
    // Sections declared as [slot 10, slot 20]: a request for 15 bytes skips
    // the 10-byte section and lands in the 20-byte section's slice.
    let buf = [0u8; 10 * 8 + 20 * 8];
    let mut a = SlabAllocator::new(
        vec![Section::new(10, Atomics::U8(0)), Section::new(20, Atomics::U8(0))],
        &buf[..],
    )
    .unwrap();
    let (start, end) = a.allocate(15, 1).unwrap();
    assert_eq!(start, 80);
    assert_eq!(end, 100);
}

#[test]
fn first_fit_fails_when_only_match_is_exhausted() {
    // Sections declared as [slot 20, slot 10]: once the single 20-byte slot
    // is taken, a request for 15 bytes finds no section that both fits and
    // has a free slot (the 10-byte section is large enough for neither).
    let buf = [0u8; 20 + 10];
    let mut a = SlabAllocator::new(
        vec![Section::new(20, Atomics::Bool(false)), Section::new(10, Atomics::Bool(false))],
        &buf[..],
    )
    .unwrap();
    assert_eq!(a.allocate(15, 1).unwrap(), (0, 20));
    assert!(a.allocate(15, 1).is_err());
}

#[test]
fn bool_section_roundtrip() {
    // One Bool-backed section, slot size 4, buffer of exactly 4 bytes.
    let buf = [0u8; 4];
    let mut a =
        SlabAllocator::new(vec![Section::new(4, Atomics::Bool(false))], &buf[..]).unwrap();
    let (start, end) = a.allocate(4, 1).unwrap();
    assert_eq!((start, end), (0, 4));
    assert!(a.allocate(4, 1).is_err());
    assert!(a.deallocate(start).is_ok());
    assert!(a.allocate(4, 1).is_ok());
}

#[test]
fn u8_section_spans_buffer_in_order() {
    // One U8-backed section (8 slots), slot size 1, buffer of exactly 8
    // bytes: eight claims return distinct single-byte ranges covering the
    // whole buffer in increasing order; the ninth fails.
    let buf = [0u8; 8];
    let mut a = SlabAllocator::new(vec![Section::new(1, Atomics::U8(0))], &buf[..]).unwrap();
    for expected in 0..8usize {
        let (start, end) = a.allocate(1, 1).unwrap();
        assert_eq!(start, expected);
        assert_eq!(end, expected + 1);
    }
    assert!(a.allocate(1, 1).is_err());
}

#[test]
fn alignment_pads_the_request() {
    // Size 5 with alignment 4 pads to 8, so a slot of 6 bytes cannot serve
    // it but a slot of 8 bytes can.
    let buf = [0u8; 6 + 8];
    let mut a = SlabAllocator::new(
        vec![Section::new(6, Atomics::Bool(false)), Section::new(8, Atomics::Bool(false))],
        &buf[..],
    )
    .unwrap();
    let (start, end) = a.allocate(5, 4).unwrap();
    assert_eq!((start, end), (6, 14));
}

#[test]
fn deallocate_foreign_address_fails() {
    let buf = [0u8; 4];
    let mut a =
        SlabAllocator::new(vec![Section::new(4, Atomics::Bool(false))], &buf[..]).unwrap();
    // No section's slice contains offset 100.
    assert!(a.deallocate(100).is_err());
    // Offset 0 is in the section's slice, but its slot was never claimed.
    assert!(a.deallocate(0).is_err());
}

#[test]
fn deallocate_twice_fails() {
    let buf = [0u8; 16];
    let mut a = SlabAllocator::new(vec![Section::new(2, Atomics::U8(0))], &buf[..]).unwrap();
    let (start, _) = a.allocate(2, 1).unwrap();
    assert!(a.deallocate(start).is_ok());
    assert!(a.deallocate(start).is_err());
}

#[test]
fn occupancy_reported_per_section() {
    let buf = [0u8; 3 * 8 + 5];
    let mut a = SlabAllocator::new(
        vec![Section::new(3, Atomics::U8(0)), Section::new(5, Atomics::Bool(false))],
        &buf[..],
    )
    .unwrap();
    assert_eq!(a.section_count(), 2);
    assert_eq!(a.section(0).free_slots(), 8);
    assert_eq!(a.section(0).total_slots(), 8);
    assert_eq!(a.section(1).free_slots(), 1);
    assert_eq!(a.section(1).total_slots(), 1);
    a.allocate(3, 1).unwrap();
    a.allocate(5, 1).unwrap();
    assert_eq!(a.section(0).free_slots(), 7);
    assert_eq!(a.section(1).free_slots(), 0);
}

#[test]
fn zero_sections_always_fail_allocation() {
    let buf = [0u8; 1];
    let mut a = SlabAllocator::new(Vec::new(), &buf[..]).unwrap();
    assert!(a.allocate(0, 1).is_err());
    assert!(a.deallocate(0).is_err());
}
