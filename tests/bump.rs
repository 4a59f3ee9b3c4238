use bump_arena::{round_up, slice_byte_count, Arena, Region, DEFAULT_CAPACITY};

#[test]
fn construct_simple() {
    let mut arena = Arena::with_capacity(4);
    let mut allocator = arena.allocator();

    let x = allocator.alloc_value(44i32);
    let y = allocator.alloc_value(3u8);
    let z = allocator.alloc_value(0x11223344u32);
    let w = allocator.alloc_default::<u64>();
    assert_eq!(allocator.get::<i32>(x), 44);
    assert_eq!(allocator.get::<u8>(y), 3);
    assert_eq!(allocator.get::<u32>(z), 0x11223344);
    assert_eq!(allocator.get::<u64>(w), 0);
}

#[test]
fn construct_slices() {
    let mut arena = Arena::with_capacity(4);
    let mut allocator = arena.allocator();

    let abc = allocator.alloc_slice(&b"abc"[..]);
    let xs = allocator.alloc_slice_fn(10, |idx| (idx as i32) * 7);
    let ys = allocator.alloc_slice_default::<u64>(4);

    let bytes = allocator.get_slice::<u8>(abc, 3);
    let s = std::str::from_utf8(&bytes).unwrap();
    let xs: Vec<i32> = allocator.get_slice(xs, 10);
    let ys: Vec<u64> = allocator.get_slice(ys, 4);

    assert_eq!(xs[9], 9 * 7);
    assert_eq!(s, "abc");
    assert_eq!(ys[0], 0);
}

#[test]
fn small_values_read_back_after_growth() {
    let mut arena = Arena::with_capacity(4);
    {
        let mut allocator = arena.allocator();
        let x = allocator.alloc_value(44i32);
        let y = allocator.alloc_value(3u8);
        let z = allocator.alloc_value(0x11223344u32);
        let w = allocator.alloc_default::<u64>();
        assert_eq!(allocator.get::<i32>(x), 44);
        assert_eq!(allocator.get::<u8>(y), 3);
        assert_eq!(allocator.get::<u32>(z), 0x11223344);
        assert_eq!(allocator.get::<u64>(w), 0);
        assert_eq!(x, Region { chunk: 0, start: 0, size: 4 });
        assert_eq!(y, Region { chunk: 1, start: 0, size: 1 });
        assert_eq!(z, Region { chunk: 1, start: 4, size: 4 });
        assert_eq!(w, Region { chunk: 2, start: 0, size: 8 });
    }
    // 4, then 2 * 4 when the byte did not fit, then 2 * 8 for the last word.
    assert_eq!(arena.capacity(), 4 + 8 + 16);
    assert!(arena.capacity() > 4);
}

#[test]
fn slices_read_back_in_full() {
    let mut arena = Arena::with_capacity(4);
    let mut allocator = arena.allocator();
    let abc = allocator.alloc_slice(&b"abc"[..]);
    let xs = allocator.alloc_slice_fn(10, |idx| (idx as i32) * 7);
    let ys = allocator.alloc_slice_default::<u64>(4);
    assert_eq!(std::str::from_utf8(&allocator.get_slice::<u8>(abc, 3)).unwrap(), "abc");
    assert_eq!(
        allocator.get_slice::<i32>(xs, 10),
        vec![0, 7, 14, 21, 28, 35, 42, 49, 56, 63]
    );
    assert_eq!(allocator.get_slice::<u64>(ys, 4), vec![0, 0, 0, 0]);
    assert_eq!(allocator.get_slice::<u8>(abc, 3), b"abc".to_vec());
    drop(allocator);
    // The ten words did not fit in the first chunk: a chunk of 2 * 40 bytes
    // was added, and the four longs fit behind them.
    assert_eq!(arena.capacity(), 4 + 80);
}

#[test]
fn default_capacity() {
    let arena = Arena::new();
    assert_eq!(arena.capacity(), DEFAULT_CAPACITY);
    assert_eq!(arena.capacity(), 1000);
}

#[test]
fn round_up_values() {
    assert_eq!(round_up(0, 8), 0);
    assert_eq!(round_up(1, 8), 8);
    assert_eq!(round_up(8, 8), 8);
    assert_eq!(round_up(9, 4), 12);
    assert_eq!(round_up(13, 1), 13);
    assert_eq!(round_up(round_up(13, 16), 16), round_up(13, 16));
    assert_eq!(round_up(13, 16), 16);
}

#[test]
fn slice_size_overflow_is_detected() {
    assert_eq!(slice_byte_count::<u64>(usize::MAX / 8 + 1), None);
    assert_eq!(slice_byte_count::<u32>(usize::MAX), None);
    assert_eq!(slice_byte_count::<u64>(4), Some(32));
    assert_eq!(slice_byte_count::<u8>(usize::MAX), Some(usize::MAX));
}

#[test]
fn regions_do_not_overlap() {
    let mut arena = Arena::with_capacity(16);
    let mut allocator = arena.allocator();
    let mut regions: Vec<Region> = Vec::new();
    for k in 0..40u32 {
        if k % 3 == 0 {
            regions.push(allocator.alloc_value(k as u8));
        } else if k % 3 == 1 {
            regions.push(allocator.alloc_value(k as u64));
        } else {
            regions.push(allocator.alloc_slice_fn(k as usize, |i| i as u32));
        }
    }
    for (i, a) in regions.iter().enumerate() {
        for b in regions.iter().skip(i + 1) {
            let apart = a.chunk != b.chunk
                || a.start + a.size <= b.start
                || b.start + b.size <= a.start;
            assert!(apart);
        }
    }
}

#[test]
fn values_survive_later_growth() {
    let mut arena = Arena::with_capacity(8);
    let mut allocator = arena.allocator();
    let first = allocator.alloc_value(0xdeadbeefu32);
    let before = allocator.arena.capacity();
    let big = allocator.alloc_slice_fn(100, |i| i as u64 * 3);
    assert!(allocator.arena.capacity() > before);
    assert_eq!(allocator.get::<u32>(first), 0xdeadbeef);
    assert_eq!(allocator.get_slice::<u64>(big, 100)[99], 297);
}

#[test]
fn zero_capacity_arena_grows_for_first_value() {
    let mut arena = Arena::with_capacity(0);
    let mut allocator = arena.allocator();
    let v = allocator.alloc_value(-5i32);
    assert_eq!(allocator.get::<i32>(v), -5);
    assert_eq!(v, Region { chunk: 1, start: 0, size: 4 });
    drop(allocator);
    assert_eq!(arena.capacity(), 8);
}

#[test]
fn empty_slice_takes_no_bytes() {
    let mut arena = Arena::with_capacity(4);
    let mut allocator = arena.allocator();
    let e = allocator.alloc_slice::<u64>(&[]);
    assert_eq!(e.size, 0);
    assert_eq!(allocator.get_slice::<u64>(e, 0), Vec::<u64>::new());
    drop(allocator);
    assert_eq!(arena.capacity(), 4);
}

#[test]
fn diagnostic_text_gives_capacity() {
    let mut arena = Arena::with_capacity(4);
    assert_eq!(arena.describe_capacity(), "Arena { capacity_bytes: 4 }");
    let mut allocator = arena.allocator();
    allocator.alloc_value(7u64);
    drop(allocator);
    assert_eq!(arena.describe_capacity(), "Arena { capacity_bytes: 20 }");
}
