use syscall_test::mem::{Heap, RECORD_SIZE};

const START: u64 = 0x5555_5575_6000;

#[test]
fn setup_lays_first_record() {
    let heap = Heap::setup(START);
    assert_eq!(heap.brk(), START + RECORD_SIZE as u64);
    assert_eq!(heap.slot_count(), 1);
    let r = heap.record(0);
    assert_eq!((r.index, r.previous, r.in_use, r.next), (0, 0, false, 0));
}

#[test]
fn malloc_hands_out_break_and_grows_it() {
    let mut heap = Heap::setup(START);
    let base = heap.brk();
    let v0 = heap.malloc(3);
    assert_eq!(v0, base);
    assert_eq!(heap.brk(), base + 3 + 32);
    assert_eq!(heap.slot_count(), 2);
    let r0 = heap.record(0);
    assert!(r0.in_use);
    assert_eq!(r0.next, base + 35);
    let r1 = heap.record(1);
    assert_eq!((r1.index, r1.previous, r1.in_use), (1, base, false));
}

#[test]
fn test_malloc_frees_back_to_start() {
    let mut heap = Heap::setup(START);
    let start_position = heap.brk();
    let v0 = heap.malloc(3);
    let v1 = heap.malloc(3);
    let v2 = heap.malloc(3);
    let v3 = heap.malloc(3);
    assert_eq!(v0, start_position);
    heap.free(v3);
    heap.free(v1);
    heap.free(v2);
    // v0 was never freed: it still holds the bottom slot.
    assert!(heap.record(0).in_use);
    assert_eq!(heap.brk(), start_position);
    heap.free(v0);
    assert_eq!(heap.brk(), start_position);
    assert_eq!(heap.slot_count(), 1);
}

#[test]
fn freeing_the_newest_allocation_also_releases_the_slot_below() {
    // The topmost in-use slot is kept as the new top, so the break ends at its position.
    let mut heap = Heap::setup(START);
    let a = heap.malloc(8);
    let b = heap.malloc(8);
    heap.free(b);
    assert_eq!(heap.brk(), a);
    assert_eq!(heap.slot_count(), 1);
    assert!(heap.record(0).in_use);
}

#[test]
fn freeing_an_inner_allocation_keeps_the_break() {
    let mut heap = Heap::setup(START);
    let a = heap.malloc(8);
    let b = heap.malloc(16);
    let c = heap.malloc(4);
    let brk = heap.brk();
    heap.free(b);
    assert_eq!(heap.brk(), brk - 4 - 32);
    assert_eq!(heap.slot_count(), 3);
    assert!(!heap.record(1).in_use);
    assert!(heap.record(2).in_use);
    assert_eq!(c, brk - 4 - 32);
    heap.free(c);
    assert_eq!(heap.brk(), a);
    heap.free(a);
    assert_eq!(heap.brk(), a);
    assert_eq!(heap.slot_count(), 1);
}

#[test]
fn free_in_any_order_returns_to_start() {
    let orders: [[usize; 3]; 6] = [[0, 1, 2], [0, 2, 1], [1, 0, 2], [1, 2, 0], [2, 0, 1], [2, 1, 0]];
    for order in orders.iter() {
        let mut heap = Heap::setup(START);
        let start = heap.brk();
        let v = [heap.malloc(1), heap.malloc(100), heap.malloc(7)];
        for &i in order.iter() {
            heap.free(v[i]);
        }
        assert_eq!(heap.brk(), start);
        assert_eq!(heap.slot_count(), 1);
    }
}

#[test]
fn positions_of_slots_are_found() {
    let mut heap = Heap::setup(START);
    let a = heap.malloc(10);
    let b = heap.malloc(20);
    assert!(heap.contains_position(a));
    assert!(heap.contains_position(b));
    assert!(heap.contains_position(heap.brk()));
    assert!(!heap.contains_position(a + 1));
    assert!(!heap.contains_position(0));
    heap.free(b);
    assert!(!heap.contains_position(b));
    assert!(heap.contains_position(a));
}

#[test]
fn live_allocation_survives_freeing_another() {
    let mut heap = Heap::setup(START);
    let a = heap.malloc(10);
    let b = heap.malloc(20);
    let c = heap.malloc(30);
    heap.free(c);
    // b is still in use: its slot stays, and the break is at its position.
    assert!(heap.contains_position(b));
    assert!(heap.record(1).in_use);
    assert_eq!(heap.brk(), b);
    heap.free(a);
    assert!(heap.contains_position(b));
    heap.free(b);
    assert_eq!(heap.brk(), a);
}
