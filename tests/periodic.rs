use playground::periodic::{MinInstantEntry, MinInstantHeap};

#[test]
fn test_order() {
    let mut heap = MinInstantHeap::new();
    let now: u64 = 1_000;
    heap.push(MinInstantEntry { timestamp: now + 10_000, task: "task1" });
    heap.push(MinInstantEntry { timestamp: now + 20_000, task: "task2" });
    let rst = heap.peek().unwrap().task();
    assert_eq!(*rst, "task1");
}

#[test]
fn empty_heap_has_nothing_due() {
    let heap: MinInstantHeap<u8> = MinInstantHeap::new();
    assert!(heap.peek().is_none());
    assert_eq!(heap.len(), 0);
}

#[test]
fn earliest_wins_whatever_the_push_order() {
    let mut heap = MinInstantHeap::new();
    heap.push(MinInstantEntry { timestamp: 30, task: 'c' });
    heap.push(MinInstantEntry { timestamp: 10, task: 'a' });
    heap.push(MinInstantEntry { timestamp: 20, task: 'b' });
    assert_eq!(*heap.peek().unwrap().task(), 'a');
}

