use macemu::heap::{Heap, HeapFault};
use macemu::memory::{block_copy, GuestMemory, MemFault};
use macemu::shims::{
    block_move_data, dispose_handle, dispose_ptr, get_handle_size, get_ptr_size, h_get_state,
    install_shims, new_handle, new_ptr, ptr_and_hand, set_handle_size, set_ptr_size,
    stub_return_void, EmuState, OsErr, Shim, ShimFault,
};

fn counting_memory(n: u32) -> GuestMemory {
    let bytes: Vec<u8> = (0..n).map(|i| i as u8).collect();
    GuestMemory::from_bytes(bytes)
}

fn bytes_at(mem: &GuestMemory, address: u32, length: u32) -> Vec<u8> {
    mem.read_bytes(address, length).unwrap()
}

#[test]
fn overlapping_copy_down() {
    let mut mem = counting_memory(30);
    block_copy(&mut mem, 10, 0, 20).unwrap();
    for i in 0..20u32 {
        assert_eq!(mem.read_u8(i).unwrap(), (10 + i) as u8);
    }
    for i in 20..30u32 {
        assert_eq!(mem.read_u8(i).unwrap(), i as u8);
    }
}

#[test]
fn overlapping_copy_up() {
    let mut mem = counting_memory(30);
    block_copy(&mut mem, 0, 10, 20).unwrap();
    for i in 0..10u32 {
        assert_eq!(mem.read_u8(i).unwrap(), i as u8);
    }
    for i in 0..20u32 {
        assert_eq!(mem.read_u8(10 + i).unwrap(), i as u8);
    }
}

#[test]
fn copy_zero_length_and_same_address_do_nothing() {
    let mut mem = counting_memory(8);
    block_copy(&mut mem, 100, 200, 0).unwrap();
    block_copy(&mut mem, 500, 500, 9).unwrap();
    assert_eq!(bytes_at(&mem, 0, 8), vec![0, 1, 2, 3, 4, 5, 6, 7]);
}

#[test]
fn copy_out_of_range_faults_and_writes_nothing() {
    let mut mem = counting_memory(8);
    assert_eq!(
        block_copy(&mut mem, 4, 0, 5),
        Err(MemFault::OutOfRange { address: 8 })
    );
    assert_eq!(
        block_copy(&mut mem, 0, 6, 3),
        Err(MemFault::OutOfRange { address: 8 })
    );
    assert_eq!(bytes_at(&mem, 0, 8), vec![0, 1, 2, 3, 4, 5, 6, 7]);
}

#[test]
fn block_move_data_shim_copies_down() {
    let mut mem = counting_memory(30);
    let mut state = EmuState::new(16, 16);
    assert_eq!(block_move_data(&mut mem, &mut state, 10, 0, 20), Ok(None));
    for i in 0..20u32 {
        assert_eq!(mem.read_u8(i).unwrap(), (10 + i) as u8);
    }
    assert_eq!(
        block_move_data(&mut mem, &mut state, 0, 25, 10),
        Err(ShimFault::Memory(MemFault::OutOfRange { address: 34 }))
    );
}

#[test]
fn u32_round_trip_is_big_endian() {
    let mut mem = GuestMemory::new(8);
    mem.write_u32(2, 0x1234_5678).unwrap();
    assert_eq!(bytes_at(&mem, 2, 4), vec![0x12, 0x34, 0x56, 0x78]);
    assert_eq!(mem.read_u32(2), Ok(0x1234_5678));
    assert!(mem.read_u32(5).is_err());
}

#[test]
fn pointer_round_trip() {
    let mut heap = Heap::new(16, 256);
    let a = heap.new_ptr(10);
    let b = heap.new_ptr(20);
    assert_ne!(a, 0);
    assert_ne!(b, 0);
    assert_eq!(heap.get_ptr_size(a), Ok(10));
    assert_eq!(heap.get_ptr_size(b), Ok(20));
    assert!(a + 10 <= b || b + 20 <= a);
    let mut mem = GuestMemory::new(256);
    mem.write_bytes(a, &vec![0xEE; 10]).unwrap();
    assert_eq!(bytes_at(&mem, b, 20), vec![0; 20]);
}

#[test]
fn allocation_fails_with_zero_when_full() {
    let mut heap = Heap::new(16, 32);
    assert_eq!(heap.new_ptr(17), 0);
    assert_ne!(heap.new_ptr(16), 0);
    assert_eq!(heap.new_ptr(1), 0);
    let mut mem = GuestMemory::new(32);
    assert_eq!(heap.new_handle(&mut mem, 1), 0);
}

#[test]
fn disposed_space_is_reused() {
    let mut heap = Heap::new(16, 32);
    let a = heap.new_ptr(16);
    assert_eq!(heap.dispose_ptr(a), Ok(()));
    assert_eq!(heap.new_ptr(16), a);
}

#[test]
fn zero_sized_pointers_are_distinct() {
    let mut heap = Heap::new(16, 64);
    let a = heap.new_ptr(0);
    let b = heap.new_ptr(0);
    assert_ne!(a, b);
    assert_eq!(heap.get_ptr_size(a), Ok(0));
    assert_eq!(heap.dispose_ptr(a), Ok(()));
    assert_eq!(heap.get_ptr_size(b), Ok(0));
}

#[test]
fn handle_cell_holds_base_address() {
    let mut mem = GuestMemory::new(64);
    let mut heap = Heap::new(16, 64);
    let h = heap.new_handle(&mut mem, 8);
    assert_eq!(h, 16);
    assert_eq!(mem.read_u32(h), Ok(20));
    assert_eq!(heap.handle_base(h), Ok(20));
    assert_eq!(heap.get_handle_size(h), Ok(8));
}

#[test]
fn handle_relocates_when_blocked() {
    let mut mem = GuestMemory::new(64);
    let mut heap = Heap::new(16, 64);
    let h = heap.new_handle(&mut mem, 8);
    mem.write_bytes(20, &vec![1, 2, 3, 4, 5, 6, 7, 8]).unwrap();
    let p = heap.new_ptr(4);
    assert_eq!(p, 28);
    assert_eq!(heap.set_handle_size(&mut mem, h, 16), Ok(true));
    let base = mem.read_u32(h).unwrap();
    assert_eq!(base, 32);
    assert_eq!(heap.handle_base(h), Ok(32));
    assert_eq!(heap.get_handle_size(h), Ok(16));
    assert_eq!(bytes_at(&mem, base, 8), vec![1, 2, 3, 4, 5, 6, 7, 8]);
    assert_eq!(heap.get_ptr_size(p), Ok(4));
}

#[test]
fn handle_grow_fails_without_room() {
    let mut mem = GuestMemory::new(40);
    let mut heap = Heap::new(16, 40);
    let h = heap.new_handle(&mut mem, 8);
    let p = heap.new_ptr(12);
    assert_eq!(p, 28);
    let before = bytes_at(&mem, 0, 40);
    assert_eq!(heap.set_handle_size(&mut mem, h, 9), Ok(false));
    assert_eq!(heap.get_handle_size(h), Ok(8));
    assert_eq!(bytes_at(&mem, 0, 40), before);
    assert_eq!(heap.set_handle_size(&mut mem, h, 3), Ok(true));
    assert_eq!(heap.get_handle_size(h), Ok(3));
    assert_eq!(heap.handle_base(h), Ok(20));
}

#[test]
fn pointer_grow_failure_leaves_block() {
    let mut mem = GuestMemory::new(64);
    let mut heap = Heap::new(16, 64);
    let a = heap.new_ptr(8);
    let b = heap.new_ptr(8);
    assert_eq!(b, a + 8);
    mem.write_bytes(a, &vec![9, 8, 7, 6, 5, 4, 3, 2]).unwrap();
    assert_eq!(heap.set_ptr_size(a, 9), Ok(false));
    assert_eq!(heap.get_ptr_size(a), Ok(8));
    assert_eq!(bytes_at(&mem, a, 8), vec![9, 8, 7, 6, 5, 4, 3, 2]);
    assert_eq!(heap.set_ptr_size(b, 30), Ok(true));
    assert_eq!(heap.get_ptr_size(b), Ok(30));
    assert_eq!(heap.set_ptr_size(a, 2), Ok(true));
    assert_eq!(heap.get_ptr_size(a), Ok(2));
}

#[test]
fn disposed_pointer_is_rejected() {
    let mut heap = Heap::new(16, 64);
    let p = heap.new_ptr(4);
    assert_eq!(heap.dispose_ptr(p), Ok(()));
    let fault = HeapFault::UnknownPointer { address: p };
    assert_eq!(heap.get_ptr_size(p), Err(fault));
    assert_eq!(heap.set_ptr_size(p, 2), Err(fault));
    assert_eq!(heap.dispose_ptr(p), Err(fault));
}

#[test]
fn disposed_handle_is_rejected() {
    let mut mem = GuestMemory::new(64);
    let mut heap = Heap::new(16, 64);
    let h = heap.new_handle(&mut mem, 4);
    assert_eq!(heap.dispose_handle(h), Ok(()));
    let fault = HeapFault::UnknownHandle { handle: h };
    assert_eq!(heap.get_handle_size(h), Err(fault));
    assert_eq!(heap.set_handle_size(&mut mem, h, 2), Err(fault));
    assert_eq!(heap.dispose_handle(h), Err(fault));
}

#[test]
fn pointer_is_not_a_handle() {
    let mut heap = Heap::new(16, 64);
    let p = heap.new_ptr(4);
    assert_eq!(
        heap.get_handle_size(p),
        Err(HeapFault::UnknownHandle { handle: p })
    );
    assert_eq!(heap.dispose_handle(p), Err(HeapFault::UnknownHandle { handle: p }));
    assert_eq!(heap.get_ptr_size(p), Ok(4));
}

#[test]
fn append_to_handle_with_room() {
    let mut mem = GuestMemory::new(128);
    let mut state = EmuState::new(16, 64);
    let h = new_handle(&mut mem, &mut state, 4).unwrap().unwrap();
    let base = mem.read_u32(h).unwrap();
    mem.write_bytes(base, &vec![1, 2, 3, 4]).unwrap();
    mem.write_bytes(100, &vec![0xAA, 0xBB, 0xCC]).unwrap();
    assert_eq!(ptr_and_hand(&mut mem, &mut state, 100, h, 3), Ok(Some(0)));
    assert_eq!(get_handle_size(&mut mem, &mut state, h), Ok(Some(7)));
    let base = mem.read_u32(h).unwrap();
    assert_eq!(bytes_at(&mem, base, 7), vec![1, 2, 3, 4, 0xAA, 0xBB, 0xCC]);
}

#[test]
fn append_to_handle_without_room() {
    let mut mem = GuestMemory::new(128);
    let mut state = EmuState::new(16, 28);
    let h = new_handle(&mut mem, &mut state, 4).unwrap().unwrap();
    let p = new_ptr(&mut mem, &mut state, 4).unwrap().unwrap();
    assert_ne!(p, 0);
    mem.write_bytes(20, &vec![1, 2, 3, 4]).unwrap();
    mem.write_bytes(100, &vec![0xAA, 0xBB, 0xCC]).unwrap();
    let before = bytes_at(&mem, 0, 128);
    assert_eq!(
        ptr_and_hand(&mut mem, &mut state, 100, h, 3),
        Ok(Some(OsErr::NotEnoughMemory.to_u32()))
    );
    assert_eq!(OsErr::NotEnoughMemory.to_u32(), 0xFFFF_FF94);
    assert_eq!(get_handle_size(&mut mem, &mut state, h), Ok(Some(4)));
    assert_eq!(bytes_at(&mem, 0, 128), before);
}

#[test]
fn append_relocates_handle() {
    let mut mem = GuestMemory::new(128);
    let mut state = EmuState::new(16, 64);
    let h = new_handle(&mut mem, &mut state, 4).unwrap().unwrap();
    let p = new_ptr(&mut mem, &mut state, 4).unwrap().unwrap();
    assert_eq!(p, 24);
    mem.write_bytes(20, &vec![1, 2, 3, 4]).unwrap();
    mem.write_bytes(p, &vec![7, 8]).unwrap();
    assert_eq!(ptr_and_hand(&mut mem, &mut state, p, h, 2), Ok(Some(0)));
    let base = mem.read_u32(h).unwrap();
    assert_eq!(base, 28);
    assert_eq!(bytes_at(&mem, base, 6), vec![1, 2, 3, 4, 7, 8]);
}

#[test]
fn append_faults() {
    let mut mem = GuestMemory::new(64);
    let mut state = EmuState::new(16, 64);
    assert_eq!(
        ptr_and_hand(&mut mem, &mut state, 0, 16, 3),
        Err(ShimFault::Heap(HeapFault::UnknownHandle { handle: 16 }))
    );
    let h = new_handle(&mut mem, &mut state, 4).unwrap().unwrap();
    assert_eq!(
        ptr_and_hand(&mut mem, &mut state, 62, h, 3),
        Err(ShimFault::Memory(MemFault::OutOfRange { address: 64 }))
    );
    assert_eq!(get_handle_size(&mut mem, &mut state, h), Ok(Some(4)));
}

#[test]
fn shim_handlers_report_results() {
    let mut mem = GuestMemory::new(64);
    let mut state = EmuState::new(16, 64);
    let p = new_ptr(&mut mem, &mut state, 6).unwrap().unwrap();
    assert_eq!(get_ptr_size(&mut mem, &mut state, p), Ok(Some(6)));
    assert_eq!(set_ptr_size(&mut mem, &mut state, p, 3), Ok(None));
    assert_eq!(get_ptr_size(&mut mem, &mut state, p), Ok(Some(3)));
    assert_eq!(dispose_ptr(&mut mem, &mut state, p), Ok(None));
    assert_eq!(
        dispose_ptr(&mut mem, &mut state, p),
        Err(ShimFault::Heap(HeapFault::UnknownPointer { address: p }))
    );
    let h = new_handle(&mut mem, &mut state, 2).unwrap().unwrap();
    assert_eq!(set_handle_size(&mut mem, &mut state, h, 5), Ok(None));
    assert_eq!(get_handle_size(&mut mem, &mut state, h), Ok(Some(5)));
    assert_eq!(dispose_handle(&mut mem, &mut state, h), Ok(None));
    assert_eq!(
        get_handle_size(&mut mem, &mut state, h),
        Err(ShimFault::Heap(HeapFault::UnknownHandle { handle: h }))
    );
    assert_eq!(h_get_state(&mut mem, &mut state), Ok(Some(0)));
    assert_eq!(stub_return_void(&mut mem, &mut state), Ok(None));
}

#[test]
fn shim_table_names_every_call() {
    let mut state = EmuState::new(16, 64);
    install_shims(&mut state);
    assert_eq!(state.shims.len(), 18);
    assert_eq!(state.shims[0], ("NewHandle", Shim::NewHandle));
    assert_eq!(state.shims[1], ("NewHandleClear", Shim::NewHandle));
    assert_eq!(state.shims[4], ("HLock", Shim::StubReturnVoid));
    assert_eq!(state.shims[14], ("BlockMoveData", Shim::BlockMoveData));
    assert_eq!(state.shims[17], ("PtrAndHand", Shim::PtrAndHand));
}

#[test]
fn live_blocks_never_overlap() {
    let mut mem = GuestMemory::new(256);
    let mut heap = Heap::new(16, 256);
    let a = heap.new_ptr(10);
    let h = heap.new_handle(&mut mem, 6);
    let b = heap.new_ptr(3);
    assert_eq!(heap.dispose_ptr(a), Ok(()));
    let c = heap.new_ptr(5);
    assert_eq!(heap.set_handle_size(&mut mem, h, 40), Ok(true));
    assert_eq!(heap.set_ptr_size(c, 8), Ok(true));
    let d = heap.new_ptr(12);
    let hb = heap.handle_base(h).unwrap();
    assert_eq!(mem.read_u32(h), Ok(hb));
    let ranges = vec![
        (h, h + 4),
        (hb, hb + 40),
        (b, b + 3),
        (c, c + 8),
        (d, d + 12),
    ];
    for (i, x) in ranges.iter().enumerate() {
        assert!(x.0 >= 16 && x.1 <= 256);
        for y in ranges.iter().skip(i + 1) {
            assert!(x.1 <= y.0 || y.1 <= x.0, "{:?} overlaps {:?}", x, y);
        }
    }
}

#[test]
fn append_without_room_ignores_unmapped_source() {
    let mut mem = GuestMemory::new(64);
    let mut state = EmuState::new(16, 28);
    let h = new_handle(&mut mem, &mut state, 4).unwrap().unwrap();
    let p = new_ptr(&mut mem, &mut state, 4).unwrap().unwrap();
    assert_ne!(p, 0);
    let before = bytes_at(&mem, 0, 64);
    assert_eq!(
        ptr_and_hand(&mut mem, &mut state, 62, h, 3),
        Ok(Some(OsErr::NotEnoughMemory.to_u32()))
    );
    assert_eq!(
        ptr_and_hand(&mut mem, &mut state, 0, h, u32::MAX),
        Ok(Some(OsErr::NotEnoughMemory.to_u32()))
    );
    assert_eq!(get_handle_size(&mut mem, &mut state, h), Ok(Some(4)));
    assert_eq!(bytes_at(&mem, 0, 64), before);
}

#[test]
fn handle_room_query_matches_resize() {
    let mut mem = GuestMemory::new(40);
    let mut heap = Heap::new(16, 40);
    let h = heap.new_handle(&mut mem, 8);
    let p = heap.new_ptr(12);
    assert_eq!(p, 28);
    assert_eq!(heap.handle_has_room(h, 9), Ok(false));
    assert_eq!(heap.set_handle_size(&mut mem, h, 9), Ok(false));
    assert_eq!(heap.handle_has_room(h, 3), Ok(true));
    assert_eq!(heap.dispose_ptr(p), Ok(()));
    assert_eq!(heap.handle_has_room(h, 20), Ok(true));
    assert_eq!(heap.set_handle_size(&mut mem, h, 20), Ok(true));
    assert_eq!(
        heap.handle_has_room(p, 1),
        Err(HeapFault::UnknownHandle { handle: p })
    );
}

#[test]
fn copy_fault_names_first_failing_access() {
    let mut mem = counting_memory(25);
    assert_eq!(
        block_copy(&mut mem, 10, 0, 20),
        Err(MemFault::OutOfRange { address: 25 })
    );
    assert_eq!(
        block_copy(&mut mem, 30, 0, 2),
        Err(MemFault::OutOfRange { address: 30 })
    );
    assert_eq!(
        block_copy(&mut mem, 10, 20, 10),
        Err(MemFault::OutOfRange { address: 29 })
    );
    assert_eq!(
        block_copy(&mut mem, 20, 24, 10),
        Err(MemFault::OutOfRange { address: 29 })
    );
    assert_eq!(
        block_copy(&mut mem, 0xFFFF_FFF0, 0xFFFF_FFF8, 0x20),
        Err(MemFault::OutOfRange { address: u32::MAX })
    );
    assert_eq!(bytes_at(&mem, 0, 25), (0..25u8).collect::<Vec<u8>>());
    assert_eq!(
        mem.read_bytes(20, 10),
        Err(MemFault::OutOfRange { address: 25 })
    );
    assert_eq!(
        mem.write_bytes(40, &vec![1]),
        Err(MemFault::OutOfRange { address: 40 })
    );
}

#[test]
fn resize_in_place_restores_cell() {
    let mut mem = GuestMemory::new(64);
    let mut heap = Heap::new(16, 64);
    let h = heap.new_handle(&mut mem, 8);
    mem.write_u32(h, 0xDEAD_BEEF).unwrap();
    assert_eq!(heap.set_handle_size(&mut mem, h, 12), Ok(true));
    assert_eq!(mem.read_u32(h), Ok(20));
}

#[test]
fn handle_cell_and_data_placed_apart() {
    let mut mem = GuestMemory::new(32);
    let mut heap = Heap::new(16, 32);
    let p1 = heap.new_ptr(4);
    let p2 = heap.new_ptr(4);
    let p3 = heap.new_ptr(4);
    let p4 = heap.new_ptr(4);
    assert_eq!((p1, p2, p3, p4), (16, 20, 24, 28));
    assert_eq!(heap.dispose_ptr(p1), Ok(()));
    assert_eq!(heap.dispose_ptr(p3), Ok(()));
    let h = heap.new_handle(&mut mem, 4);
    assert_eq!(h, 24);
    assert_eq!(mem.read_u32(h), Ok(16));
    assert_eq!(heap.handle_base(h), Ok(16));
    assert_eq!(heap.get_handle_size(h), Ok(4));
    assert_eq!(heap.new_handle(&mut mem, 1), 0);
}
