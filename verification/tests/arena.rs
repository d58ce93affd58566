use sift::native::Arena;

struct XorShift64(u64);

impl XorShift64 {
    fn next_u64(&mut self) -> u64 {
        let mut x = self.0;
        x ^= x >> 12;
        x ^= x << 25;
        x ^= x >> 27;
        self.0 = x;
        x.wrapping_mul(0x2545_F491_4F6C_DD1D)
    }

    fn below(&mut self, bound: usize) -> usize {
        if bound == 0 {
            0
        } else {
            (self.next_u64() % bound as u64) as usize
        }
    }
}

#[test]
fn arena_alignment_rejections() {
    let mut arena = Arena::new(256).expect("arena");
    assert!(arena.alloc_bytes(16, 3).is_none());
    assert!(arena.alloc_bytes(16, 5).is_none());
    assert!(arena.alloc_bytes(16, 7).is_none());
    assert!(arena.alloc_bytes(16, 15).is_none());

    assert!(arena.alloc_bytes(16, 1).is_some());
    assert!(arena.alloc_bytes(16, 2).is_some());
    assert!(arena.alloc_bytes(16, 4).is_some());
    assert!(arena.alloc_bytes(16, 8).is_some());
    assert!(arena.alloc_bytes(16, 16).is_some());
}

#[test]
fn fuzz_arena_allocations() {
    let mut rng = XorShift64(0x1337_C0DE_BABE_FACE);
    let mut arena = Arena::new(65536).expect("arena init");

    for _ in 0..500 {
        arena.reset();
        assert_eq!(arena.used(), 0);

        let count = rng.below(30) + 1;
        for _ in 0..count {
            let size = rng.below(512);
            let alignments = [1, 2, 4, 8, 16, 32, 64];
            let alignment = alignments[rng.below(alignments.len())];

            if let Some(buf) = arena.alloc_bytes(size, alignment) {
                assert_eq!(buf.len(), size);
                if size > 0 {
                    let ptr_val = buf.as_ptr() as usize;
                    assert_eq!(ptr_val % alignment, 0, "alignment mismatch");
                    buf.fill(0x5A);
                }
            }
        }
    }
}

#[test]
fn arena_init_and_alloc() {
    let mut arena = Arena::new(1024).expect("arena creation failed");
    assert_eq!(arena.capacity(), 1024);
    assert_eq!(arena.used(), 0);
    assert_eq!(arena.remaining(), 1024);

    let slice1 = arena.alloc_bytes(64, 8).expect("allocation failed");
    assert_eq!(slice1.len(), 64);
    slice1.fill(0xAA);
    assert_eq!(arena.used(), 64);
    assert_eq!(arena.remaining(), 960);

    let slice2 = arena.alloc_bytes(128, 16).expect("allocation failed");
    assert_eq!(slice2.len(), 128);
    slice2.fill(0xBB);
    assert!(arena.used() >= 192);

    arena.reset();
    assert_eq!(arena.used(), 0);
    assert_eq!(arena.remaining(), 1024);

    let slice3 = arena.alloc_bytes(512, 8).expect("allocation failed");
    slice3.fill(0xCC);
    assert_eq!(arena.used(), 512);
}

#[test]
fn arena_exhaustion_returns_none() {
    let mut arena = Arena::new(128).expect("arena creation");
    let slice = arena.alloc_bytes(100, 8).expect("first alloc");
    assert_eq!(slice.len(), 100);

    assert!(arena.alloc_bytes(50, 8).is_none());
    assert_eq!(arena.used(), 100);
}

#[test]
fn arena_alignment_behavior() {
    let mut arena = Arena::new(1024).expect("arena creation");
    let slice1 = arena.alloc_bytes(1, 1).expect("1-byte alloc");
    assert_eq!(slice1.len(), 1);

    let slice2 = arena.alloc_bytes(8, 64).expect("64-byte aligned alloc");
    let ptr = slice2.as_ptr() as usize;
    assert_eq!(ptr % 64, 0, "must be 64-byte aligned");

    assert!(arena.alloc_bytes(8, 3).is_none(), "non power of 2 alignment fails");
}

#[test]
fn arena_zero_size_alloc() {
    let mut arena = Arena::new(64).expect("arena creation");
    let slice = arena.alloc_bytes(0, 8).expect("zero-size alloc");
    assert_eq!(slice.len(), 0);
    assert_eq!(arena.used(), 0);
}

#[test]
fn arena_empty_capacity() {
    let mut arena = Arena::new(0).expect("zero-capacity arena creation");
    assert_eq!(arena.capacity(), 0);
    assert_eq!(arena.used(), 0);
    assert!(arena.alloc_bytes(10, 8).is_none());
}

#[test]
fn arena_padding_counts_as_used() {
    let mut arena = Arena::new(256).expect("arena");
    arena.alloc_bytes(1, 1).expect("one byte");
    let used_before = arena.used();
    let slice = arena.alloc_bytes(4, 32).expect("aligned");
    assert_eq!(slice.len(), 4);
    assert!(arena.used() >= used_before + 4);
    assert_eq!(arena.remaining(), 256 - arena.used());
    assert!(arena.alloc_bytes(4, 0).is_none());
}
