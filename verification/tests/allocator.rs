use nit_os::fixed_size_blocks::{
    block_size, is_power_of_two, list_index, FixedSizeBlockAllocator, Layout, BLOCK_CLASS_COUNT,
};

const HEAP_START: usize = 0x0010_0000;
const HEAP_SIZE: usize = 100 * 1024;

fn layout(size: usize, align: usize) -> Layout {
    Layout::from_size_align(size, align).unwrap()
}

fn fresh_heap() -> FixedSizeBlockAllocator {
    let mut a = FixedSizeBlockAllocator::new();
    a.init(HEAP_START, HEAP_SIZE);
    a
}

#[test]
fn block_size_table() {
    let expected = [8, 16, 32, 64, 128, 256, 512, 1024, 2048];
    for k in 0..BLOCK_CLASS_COUNT {
        assert_eq!(block_size(k), expected[k]);
    }
}

#[test]
fn class_is_smallest_holding_size_and_align() {
    assert_eq!(list_index(&layout(1, 1)), Some(0));
    assert_eq!(list_index(&layout(8, 1)), Some(0));
    assert_eq!(list_index(&layout(9, 1)), Some(1));
    assert_eq!(list_index(&layout(16, 32)), Some(2));
    assert_eq!(list_index(&layout(100, 1)), Some(4));
    assert_eq!(list_index(&layout(2048, 1)), Some(8));
    assert_eq!(list_index(&layout(2049, 1)), None);
    assert_eq!(list_index(&layout(1, 4096)), None);
}

#[test]
fn layout_rejects_bad_alignment() {
    assert!(Layout::from_size_align(8, 0).is_none());
    assert!(Layout::from_size_align(8, 3).is_none());
    assert!(Layout::from_size_align(8, 24).is_none());
    assert!(Layout::from_size_align(8, 16).is_some());
}

#[test]
fn power_of_two_check() {
    assert!(is_power_of_two(1));
    assert!(is_power_of_two(2));
    assert!(is_power_of_two(2048));
    assert!(!is_power_of_two(0));
    assert!(!is_power_of_two(6));
    assert!(!is_power_of_two(2047));
}

#[test]
fn classed_allocation_is_aligned_to_class_size() {
    let mut a = fresh_heap();
    // size 20 at align 4 needs 32 bytes: class 2
    let l = layout(20, 4);
    let p = a.allocate(l).unwrap();
    assert_eq!(p % 32, 0);
    assert!(p >= HEAP_START && p + 32 <= HEAP_START + HEAP_SIZE);
    // one word, class 0
    let l8 = layout(8, 8);
    let q = a.allocate(l8).unwrap();
    assert_eq!(q % 8, 0);
}

#[test]
fn large_allocation_bypasses_class_lists() {
    let mut a = fresh_heap();
    // park one freed block on a class list so the lists are not all empty
    let small = layout(8, 8);
    let s = a.allocate(small).unwrap();
    a.dealloc(s, small);
    let heads_before = a.heads.clone();
    let big = layout(4000, 8);
    let p = a.allocate(big).unwrap();
    assert_eq!(p % 8, 0);
    // no class list was touched, going in...
    assert_eq!(a.heads, heads_before);
    // ...or coming back
    a.dealloc(p, big);
    assert_eq!(a.heads, heads_before);
}

#[test]
fn round_trip_leaks_no_capacity() {
    let mut a = fresh_heap();
    // classed request: the freed block is reused at once
    let l = layout(64, 64);
    let p1 = a.allocate(l).unwrap();
    a.dealloc(p1, l);
    let p2 = a.allocate(l).unwrap();
    assert_eq!(p1, p2);
    a.dealloc(p2, l);
    // fallback request: the freed range serves the same request again
    let big = layout(8192, 8);
    let q1 = a.allocate(big).unwrap();
    a.dealloc(q1, big);
    let q2 = a.allocate(big).unwrap();
    assert_eq!(q1, q2);
}

#[test]
fn exhaustion_reports_no_address() {
    let mut a = FixedSizeBlockAllocator::new();
    a.init(HEAP_START, 64);
    assert!(a.allocate(layout(128, 8)).is_none());
    // a classed request beyond the remaining window also fails cleanly
    let p = a.allocate(layout(64, 64));
    // the 64-byte window cannot hold a 64-aligned block unless its start
    // happens to be aligned; either way a second one must fail
    if let Some(q) = p {
        assert_eq!(q % 64, 0);
        assert!(a.allocate(layout(64, 64)).is_none());
    }
}

#[test]
fn freed_classed_memory_is_never_returned_to_fallback() {
    let mut a = fresh_heap();
    let l = layout(256, 8);
    let regions_after_carve = {
        let p = a.allocate(l).unwrap();
        a.dealloc(p, l);
        a.fallback.regions.clone()
    };
    // another round trip of the same class reuses the dedicated block and
    // leaves the fallback store untouched
    let p = a.allocate(l).unwrap();
    a.dealloc(p, l);
    assert_eq!(a.fallback.regions, regions_after_carve);
}

#[test]
fn fallback_coalesces_free_neighbours() {
    let mut a = fresh_heap();
    let big = layout(4096, 8);
    let p1 = a.allocate(big).unwrap();
    let p2 = a.allocate(big).unwrap();
    let p3 = a.allocate(big).unwrap();
    assert_eq!(p2, p1 + 4096);
    assert_eq!(p3, p2 + 4096);
    a.dealloc(p1, big);
    a.dealloc(p3, big);
    a.dealloc(p2, big);
    // the three blocks merged back: one request covering all of them fits
    // again at the same place
    let whole = layout(3 * 4096, 8);
    let q = a.allocate(whole).unwrap();
    assert_eq!(q, p1);
}

// Scenario: a 100 KiB window, a growing container filled with the first
// thousand integers; their sum must come out exactly.
#[test]
fn growing_container_sums_to_499500() {
    let mut a = fresh_heap();
    let mut cap: usize = 1;
    let mut len: usize = 0;
    let mut buf = a.allocate(layout(cap * 8, 8)).unwrap();
    for i in 0..1000u64 {
        if len == cap {
            let new_cap = cap * 2;
            let new_buf = a.allocate(layout(new_cap * 8, 8)).unwrap();
            for j in 0..len {
                let v = a.window.read_word(buf + 8 * j);
                a.window.write_word(new_buf + 8 * j, v);
            }
            a.dealloc(buf, layout(cap * 8, 8));
            buf = new_buf;
            cap = new_cap;
        }
        a.window.write_word(buf + 8 * len, i);
        len += 1;
    }
    assert_eq!(len, 1000);
    let mut sum: u64 = 0;
    for j in 0..len {
        sum += a.window.read_word(buf + 8 * j);
    }
    assert_eq!(sum, 499500);
}

// Scenario: a long-lived word survives the full heap capacity of
// short-lived allocations — free-list reuse corrupts no live block, even
// though the links live inside the freed memory itself.
#[test]
fn long_lived_word_survives_free_list_reuse() {
    let mut a = fresh_heap();
    let word = layout(8, 8);
    let first = a.allocate(word).unwrap();
    a.window.write_word(first, 42);
    for i in 0..(HEAP_SIZE as u64) {
        let p = a.allocate(word).unwrap();
        assert_ne!(p, first);
        a.window.write_word(p, i);
        assert_eq!(a.window.read_word(p), i);
        a.dealloc(p, word);
    }
    assert_eq!(a.window.read_word(first), 42);
}
