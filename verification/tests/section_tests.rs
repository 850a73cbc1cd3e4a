use slab_allocator::Atomics;
use slab_allocator::Section;

#[test]
fn bool_alloc() {
    let mut section: Section = Section::new(0, Atomics::Bool(false));
    assert!(section.allocate().is_ok());
    assert!(section.allocate().is_err());
    assert!(section.free_slots() == 0);
}

#[test]
fn bool_dealloc() {
    let mut section: Section = Section::new(0, Atomics::Bool(true));
    assert!(section.deallocate(0).is_ok());
    assert!(section.deallocate(0).is_err());
    assert!(section.free_slots() == 1);
}

#[test]
fn u8_alloc() {
    let mut section: Section = Section::new(0, Atomics::U8(0));
    for _ in 0..u8::BITS {
        assert!(section.allocate().is_ok());
    }
    assert!(section.allocate().is_err());
    assert!(section.free_slots() == 0);
}

#[test]
fn u8_dealloc() {
    let mut section: Section = Section::new(0, Atomics::U8(u8::MAX));
    for i in 0..u8::BITS {
        assert!(section.deallocate(i).is_ok());
    }
    for i in 0..u8::BITS {
        assert!(section.deallocate(i).is_err());
    }
    assert!(section.free_slots() == u8::BITS);
}

#[test]
fn u16_alloc() {
    let mut section: Section = Section::new(0, Atomics::U16(0));
    for _ in 0..u16::BITS {
        assert!(section.allocate().is_ok());
    }
    assert!(section.allocate().is_err());
    assert!(section.free_slots() == 0);
}

#[test]
fn u16_dealloc() {
    let mut section: Section = Section::new(0, Atomics::U16(u16::MAX));
    for i in 0..u16::BITS {
        assert!(section.deallocate(i).is_ok());
    }
    for i in 0..u16::BITS {
        assert!(section.deallocate(i).is_err());
    }
    assert!(section.free_slots() == u16::BITS);
}

#[test]
fn u32_alloc() {
    let mut section: Section = Section::new(0, Atomics::U32(0));
    for _ in 0..u32::BITS {
        assert!(section.allocate().is_ok());
    }
    assert!(section.allocate().is_err());
    assert!(section.free_slots() == 0);
}

#[test]
fn u32_dealloc() {
    let mut section: Section = Section::new(0, Atomics::U32(u32::MAX));
    for i in 0..u32::BITS {
        assert!(section.deallocate(i).is_ok());
    }
    for i in 0..u32::BITS {
        assert!(section.deallocate(i).is_err());
    }
    assert!(section.free_slots() == u32::BITS);
}

#[test]
fn u64_alloc() {
    let mut section: Section = Section::new(0, Atomics::U64(0));
    for _ in 0..u64::BITS {
        assert!(section.allocate().is_ok());
    }
    assert!(section.allocate().is_err());
    assert!(section.free_slots() == 0);
}

#[test]
fn u64_dealloc() {
    let mut section: Section = Section::new(0, Atomics::U64(u64::MAX));
    for i in 0..u64::BITS {
        assert!(section.deallocate(i).is_ok());
    }
    for i in 0..u64::BITS {
        assert!(section.deallocate(i).is_err());
    }
    assert!(section.free_slots() == u64::BITS);
}

#[test]
fn claims_take_lowest_free_index() {
    let mut section: Section = Section::new(0, Atomics::U8(0));
    for expected in 0..8u32 {
        assert_eq!(section.allocate().unwrap(), expected);
    }
    // Free a slot in the middle: the next claim takes exactly that one.
    assert!(section.deallocate(3).is_ok());
    assert_eq!(section.allocate().unwrap(), 3);
}

#[test]
fn release_restores_free_count() {
    let mut section: Section = Section::new(1, Atomics::U16(0x5A5A));
    let before = section.free_slots();
    let i = section.allocate().unwrap();
    assert!(section.deallocate(i).is_ok());
    assert_eq!(section.free_slots(), before);
}

#[test]
fn release_of_clear_bit_fails_fresh_and_after_roundtrip() {
    // Fresh section: every bit is clear, so any release fails.
    let mut fresh: Section = Section::new(1, Atomics::U8(0));
    assert!(fresh.deallocate(0).is_err());

    // Fully claimed then fully released: releases fail again.
    let mut section: Section = Section::new(1, Atomics::U8(0));
    for _ in 0..8 {
        assert!(section.allocate().is_ok());
    }
    for i in 0..8 {
        assert!(section.deallocate(i).is_ok());
    }
    assert!(section.deallocate(3).is_err());
}

#[test]
fn release_beyond_width_fails() {
    let mut section: Section = Section::new(1, Atomics::U8(u8::MAX));
    assert!(section.deallocate(8).is_err());
    assert_eq!(section.free_slots(), 0);
}

#[test]
fn fresh_and_full_occupancy_counts() {
    let mut section: Section = Section::new(2, Atomics::U16(0));
    assert_eq!(section.total_slots(), 16);
    assert_eq!(section.free_slots(), section.total_slots());
    for _ in 0..16 {
        assert!(section.allocate().is_ok());
    }
    assert_eq!(section.free_slots(), 0);
}
